use arkham::build_output::{build_succeeded, is_error_line};
use arkham::clock::BuildTime;
use arkham::error::ArkhamError;
use arkham::info::ProjectInfo;
use arkham::lifecycle::artifact_name;
use arkham::session::{_restore_to_state, backup_entry, commit_message, not_implemented_yet, wants_update};
use arkham::version::UpdateKind;

fn strings(v: &[&str]) -> Vec<String> {
    v.iter().map(|s| s.to_string()).collect()
}

fn corrupt(r: Result<ProjectInfo, ArkhamError>) -> String {
    match r {
        Err(ArkhamError::CorruptVersionInfo(m)) => m,
        other => panic!("{:?}", other),
    }
}

#[test]
fn version_info_round_trip() {
    let info = ProjectInfo::new("myapp".to_string(), "1.00".to_string(), "/work/myapp".to_string());
    let text = info.to_file_text();
    assert_eq!(text, "project_name=myapp\ncurrent_version=1.00\nproject_root=/work/myapp\n");
    let lines: Vec<String> = text.lines().map(|l| l.to_string()).collect();
    let back = ProjectInfo::parse_lines(&lines).unwrap();
    assert_eq!(back.project_name, "myapp");
    assert_eq!(back.current_version, "1.00");
    assert_eq!(back.project_root, "/work/myapp");
}

#[test]
fn version_info_ignores_unknown_keys_and_rejects_bad_lines() {
    let ok = ProjectInfo::parse_lines(&strings(&["owner=me", "project_name=a", "current_version=2.00"])).unwrap();
    assert_eq!(ok.project_name, "a");
    assert_eq!(ok.project_root, "");
    assert_eq!(corrupt(ProjectInfo::parse_lines(&strings(&["project_name=a", "junk"]))), "Invalid format in Version file");
    assert_eq!(corrupt(ProjectInfo::parse_lines(&strings(&["project_name=a=b"]))), "Invalid format in Version file");
    assert_eq!(
        corrupt(ProjectInfo::parse_lines(&strings(&["project_name=a"]))),
        "Invalid Version info please check: .version.info"
    );
}

#[test]
fn end_to_end_first_build() {
    // No version-info file yet: the record is created from the answers given.
    let info = ProjectInfo::new("myapp".to_string(), "1.00".to_string(), "/work/myapp".to_string());
    let lines: Vec<String> = info.to_file_text().lines().map(|l| l.to_string()).collect();
    let status = ProjectInfo::parse_lines(&lines).unwrap();
    assert_eq!(artifact_name(&status.project_name, &status.current_version), "myapp_v_1.00");
    assert_eq!(status.project_name, "myapp");
    assert_eq!(status.current_version, "1.00");
    assert_eq!(status.project_root, "/work/myapp");
}

#[test]
fn error_lines_in_build_output() {
    assert!(is_error_line("main.c:3: error: expected ';'"));
    assert!(is_error_line("make: *** [all] Error 1"));
    assert!(is_error_line("make:*** nothing"));
    assert!(!is_error_line("make:*** 'all' is up to date."));
    assert!(!is_error_line("x: error: y is up to date"));
    assert!(!is_error_line("Error 2 is up to date"));
    assert!(!is_error_line("cc -o app main.c"));
    assert!(build_succeeded(&strings(&["cc -c a.c", "cc -o app a.o"])));
    assert!(!build_succeeded(&strings(&["cc -c a.c", "a.c:1: error: x"])));
    assert!(build_succeeded(&vec![]));
}

#[test]
fn answers_to_prompts() {
    assert!(wants_update(" YES\n"));
    assert!(wants_update("y"));
    assert!(!wants_update("no"));
    assert!(!wants_update("yess"));
    assert_eq!(UpdateKind::from_answer("Major\n").unwrap(), UpdateKind::Major);
    assert_eq!(UpdateKind::from_answer(" 0 ").unwrap(), UpdateKind::Minor);
    match UpdateKind::from_answer("patch") {
        Err(ArkhamError::InvalidVersion(m)) => assert_eq!(m, "Invalid update type"),
        other => panic!("{:?}", other),
    }
}

#[test]
fn timestamps_are_zero_padded() {
    let t = BuildTime { year: 2024, month: 3, day: 7, hour: 9, minute: 5, second: 0 };
    assert_eq!(t.date_string(), "2024-03-07");
    assert_eq!(t.timestamp_string(), "2024-03-07 09:05:00");
    let old = BuildTime { year: 33, month: 12, day: 31, hour: 23, minute: 59, second: 59 };
    assert_eq!(old.date_string(), "0033-12-31");
    assert_eq!(BuildTime { year: -5, ..old }.date_string(), "-0005-12-31");
    assert_eq!(BuildTime { year: 12345, ..old }.date_string(), "+12345-12-31");
}

#[test]
fn clock_reads_a_valid_time() {
    let now = BuildTime::now();
    assert!((1..=12).contains(&now.month) && (1..=31).contains(&now.day));
    assert!(now.hour < 24 && now.minute < 60 && now.second < 60);
    assert_eq!(now.date_string().len(), 10);
}

#[test]
fn backup_records() {
    assert_eq!(commit_message("3.53"), "v_3.53");
    let info = ProjectInfo::new("myapp".to_string(), "3.53".to_string(), "/w".to_string());
    let at = BuildTime { year: 2024, month: 1, day: 2, hour: 3, minute: 4, second: 5 };
    let e = backup_entry(&info, "msg, here", "ann", "abcdef0123", &at);
    assert_eq!(e.encode_row(), "3.53,\"msg, here\",2024-01-02 03:04:05,\"ann\",\"abcdef0123\"");
}

#[test]
fn placeholder_and_restore() {
    assert_eq!(not_implemented_yet("restore"), "[not_implemented_yet]: restore");
    assert!(matches!(_restore_to_state("1.00"), Err(ArkhamError::BackupError(_))));
}

#[test]
fn error_messages() {
    assert_eq!(ArkhamError::IoError("boom".to_string()).message(), "IO Error: boom");
    assert_eq!(
        ArkhamError::InvalidVersion("3.x".to_string()).message(),
        "Invalid version format '3.x'. Expected format: X.YY (e.g., 3.53, 2.05)"
    );
    assert_eq!(
        ArkhamError::NoVersionSpecified.message(),
        "No version specified. Usage: arkham archive-entry <version1> [version2] ..."
    );
    assert_eq!(ArkhamError::VersionNotFound("1.00".to_string()).message(), "Version 1.00 not found in logs");
    assert_eq!(
        ArkhamError::MultipleVersionErrors(strings(&["a", "b"])).message(),
        "Multiple version errors! :\n  - a\n  - b\n"
    );
    assert_eq!(ArkhamError::CorruptVersionInfo("x".to_string()).message(), "Corrupt version info: x");
    assert_eq!(ArkhamError::MissingVersionInfo.message(), "Version Information missing");
    assert_eq!(ArkhamError::BuildError("y".to_string()).message(), "Build error: y");
    assert_eq!(
        ArkhamError::BackupError("z".to_string()).message(),
        "Error occurred during saving/restoring state!: z"
    );
}

#[test]
fn banner_is_rendered_large() {
    let banner = arkham::console::title_banner().unwrap();
    assert!(banner.lines().count() > 1);
    assert_ne!(banner.trim(), "Arkham");
}

#[test]
fn history_table_shows_short_commits() {
    let e = arkham::log::VersionLogEntry {
        version: "3.53".to_string(),
        log_message: "fix".to_string(),
        build_date: "2024-01-02 03:04:05".to_string(),
        builder: "ann".to_string(),
        commit_id: "0123456789abcdef".to_string(),
    };
    let table = arkham::console::history_table(&vec![e]);
    assert!(table.starts_with('+'));
    assert!(table.contains("01234567..."));
    assert!(!table.contains("0123456789abcdef"));
    assert!(table.contains("Build Date"));
}

#[test]
fn commit_id_is_trimmed() {
    assert_eq!(arkham::session::commit_id_from_output("  abc123\n"), "abc123");
    assert_eq!(arkham::session::commit_id_from_output("\n"), "");
}

#[test]
fn header_box_centres_each_line() {
    let rows = arkham::console::header_box("ab\nabc\n");
    assert_eq!(rows.len(), 4);
    assert_eq!(rows[0], format!("╔{}╗", "═".repeat(78)));
    assert_eq!(rows[1], format!("║{}ab{}║", " ".repeat(38), " ".repeat(38)));
    assert_eq!(rows[2], format!("║{}abc{}║", " ".repeat(37), " ".repeat(38)));
    assert_eq!(rows[3], format!("╚{}╝", "═".repeat(78)));
    let long = "x".repeat(90);
    assert_eq!(arkham::console::header_box(&long)[1], format!("║ {} ║", long));
    assert_eq!(arkham::console::header_box("").len(), 2);
}

#[test]
fn header_box_drops_carriage_returns() {
    let rows = arkham::console::header_box("ab\r\ncd");
    assert_eq!(rows.len(), 4);
    assert_eq!(rows[1], format!("║{}ab{}║", " ".repeat(38), " ".repeat(38)));
}

#[test]
fn build_outcome_and_version_choice() {
    assert!(arkham::session::build_outcome(true).is_ok());
    match arkham::session::build_outcome(false) {
        Err(ArkhamError::BuildError(m)) => assert_eq!(m, "Build failed"),
        other => panic!("{:?}", other),
    }
    assert_eq!(arkham::session::version_to_publish("3.53", "n", "").unwrap(), "3.53");
    assert_eq!(arkham::session::version_to_publish("3.53", "Y", "0").unwrap(), "3.54");
    assert_eq!(arkham::session::version_to_publish("3.53", "yes", "MAJOR").unwrap(), "4.00");
    match arkham::session::version_to_publish("3.53", "y", "patch") {
        Err(ArkhamError::InvalidVersion(m)) => assert_eq!(m, "Invalid update type"),
        other => panic!("{:?}", other),
    }
}

#[test]
fn header_box_pads_by_utf8_bytes() {
    let rows = arkham::console::header_box("é");
    assert_eq!(rows[1], format!("║{}é{}║", " ".repeat(38), " ".repeat(38)));
    let wide = "é".repeat(40);
    assert_eq!(arkham::console::header_box(&wide)[1], format!("║ {} ║", wide));
}

#[test]
fn banner_is_always_rendered() {
    assert!(arkham::console::title_banner().is_some());
}
