use arkham::error::ArkhamError;
use arkham::log::{list_entries, log_header, lookup, split_fields, VersionLogEntry};

fn entry(version: &str, log: &str, date: &str, builder: &str, commit: &str) -> VersionLogEntry {
    VersionLogEntry {
        version: version.to_string(),
        log_message: log.to_string(),
        build_date: date.to_string(),
        builder: builder.to_string(),
        commit_id: commit.to_string(),
    }
}

fn strings(v: &[&str]) -> Vec<String> {
    v.iter().map(|s| s.to_string()).collect()
}

fn multiple(r: Result<Vec<VersionLogEntry>, ArkhamError>) -> Vec<String> {
    match r {
        Err(ArkhamError::MultipleVersionErrors(m)) => m,
        other => panic!("expected MultipleVersionErrors, got {:?}", other),
    }
}

#[test]
fn row_round_trip_with_comma() {
    let e = entry("3.53", "fixed a, b and c", "2024-01-02 03:04:05", "ann", "0123456789abcdef");
    let row = e.encode_row();
    assert_eq!(row, "3.53,\"fixed a, b and c\",2024-01-02 03:04:05,\"ann\",\"0123456789abcdef\"");
    let back = VersionLogEntry::parse_row(&row, 2).unwrap();
    assert_eq!(back.version, "3.53");
    assert_eq!(back.log_message, "fixed a, b and c");
    assert_eq!(back.build_date, "2024-01-02 03:04:05");
    assert_eq!(back.builder, "ann");
    assert_eq!(back.commit_id, "0123456789abcdef");
}

#[test]
fn row_round_trip_with_comma_and_quotes() {
    let e = entry("1.00", "fix a, b \"quoted\"", "2024-01-02 10:00:00", "bo \"b\"", "abc");
    let back = VersionLogEntry::parse_row(&e.encode_row(), 2).unwrap();
    assert_eq!(back.log_message, "fix a, b \"quoted\"");
    assert_eq!(back.builder, "bo \"b\"");
    let e2 = entry("1.00", "say \"hi\", ok", "d", " padded ", "c");
    let back2 = VersionLogEntry::parse_row(&e2.encode_row(), 2).unwrap();
    assert_eq!(back2.log_message, "say \"hi\", ok");
    assert_eq!(back2.builder, " padded ");
}

#[test]
fn split_strips_one_layer_of_quotes() {
    assert_eq!(split_fields("\"\"x\"\",\"\""), vec!["\"x\"", ""]);
    assert_eq!(split_fields("\""), vec!["\""]);
}

#[test]
fn split_trims_and_honours_quotes() {
    assert_eq!(split_fields(" a , \"b, c\" ,d"), vec!["a", "b, c", "d"]);
    assert_eq!(split_fields(""), vec![""]);
    assert_eq!(split_fields("a,,b"), vec!["a", "", "b"]);
}

#[test]
fn parse_row_reports_field_count() {
    match VersionLogEntry::parse_row("1.00,\"x\"", 7) {
        Err(ArkhamError::CorruptVersionInfo(m)) => {
            assert_eq!(m, "Corrupt version info at line 7: Expected 5 fields, found 2")
        }
        other => panic!("{:?}", other),
    }
}

#[test]
fn shown_commit_truncates_long_ids() {
    assert_eq!(entry("1.00", "", "", "", "0123456789").shown_commit(), "01234567...");
    assert_eq!(entry("1.00", "", "", "", "01234567").shown_commit(), "01234567");
}

#[test]
fn list_reads_all_rows_after_header() {
    let lines = vec![
        log_header(),
        entry("1.00", "first", "d1", "a", "c1").encode_row(),
        entry("1.01", "second, more", "d2", "b", "c2").encode_row(),
    ];
    let es = list_entries(&lines).unwrap();
    assert_eq!(es.len(), 2);
    assert_eq!(es[1].log_message, "second, more");
    assert!(list_entries(&vec![log_header()]).unwrap().is_empty());
    assert!(list_entries(&vec![]).unwrap().is_empty());
}

#[test]
fn list_collects_every_bad_row() {
    let lines = strings(&["version_name,version_log,build_date,built_by,commit_id", "1.00,\"a\",d,\"b\"", "x.1,\"a\",d,\"b\",\"c\"", "1.02,\"a\",d,\"b\",\"c\""]);
    let m = multiple(list_entries(&lines));
    assert_eq!(m.len(), 2);
    assert_eq!(m[0], "Corrupt version info at line 2: Expected 5 fields, found 4");
    assert_eq!(
        m[1],
        "Invalid version at line 3: Invalid version format 'x.1'. Expected format: X.YY (e.g., 3.53, 2.05)"
    );
}

#[test]
fn lookup_without_versions_fails() {
    let lines = vec![log_header()];
    assert!(matches!(lookup(&vec![], Some(&lines)), Err(ArkhamError::NoVersionSpecified)));
}

#[test]
fn lookup_one_valid_one_malformed() {
    let lines = vec![log_header(), entry("3.53", "m", "d", "b", "c").encode_row()];
    let m = multiple(lookup(&strings(&["3.53", "3.x"]), Some(&lines)));
    assert_eq!(m, vec!["Invalid version format '3.x'. Expected format: X.YY (e.g., 3.53, 2.05)".to_string()]);
}

#[test]
fn lookup_filters_rows() {
    let lines = vec![
        log_header(),
        entry("3.52", "a", "d", "b", "c").encode_row(),
        entry("3.53", "b", "d", "b", "c").encode_row(),
        "3.54,broken".to_string(),
    ];
    let es = lookup(&strings(&["3.53"]), Some(&lines)).unwrap();
    assert_eq!(es.len(), 1);
    assert_eq!(es[0].log_message, "b");
    let m = multiple(lookup(&strings(&["3.54"]), Some(&lines)));
    assert_eq!(m, vec!["Corrupt version info at line 4: Expected 5 fields, found 2".to_string()]);
}

#[test]
fn lookup_not_found_lists_each_request() {
    let lines = vec![log_header(), entry("3.52", "a", "d", "b", "c").encode_row()];
    let m = multiple(lookup(&strings(&["1.00", "2.00"]), Some(&lines)));
    assert_eq!(m, vec!["Version 1.00 not found in logs".to_string(), "Version 2.00 not found in logs".to_string()]);
}

#[test]
fn lookup_without_log_file_is_empty() {
    assert!(lookup(&strings(&["1.00"]), None).unwrap().is_empty());
    assert!(lookup(&strings(&["1.0.0"]), None).is_err());
}

#[test]
fn header_text() {
    assert_eq!(log_header(), "version_name,version_log,build_date,built_by,commit_id");
}
