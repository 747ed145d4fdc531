use arkham::error::ArkhamError;
use arkham::lifecycle::{
    archive_moves, artifact_name, prune_plan, sidecar_name, ArchiveEntry, PublishAction, PublishEvent, PublishPhase,
    Publisher,
};
use arkham::metadata::{carries_version, embed_metadata, find_subsequence, strip_metadata};

const MARKER: &[u8] = b"--VERSION_INFO_START--";

fn count_markers(b: &[u8]) -> usize {
    b.windows(MARKER.len()).filter(|w| *w == MARKER).count()
}

fn strings(v: &[&str]) -> Vec<String> {
    v.iter().map(|s| s.to_string()).collect()
}

#[test]
fn find_subsequence_first_position() {
    assert_eq!(find_subsequence(b"abcabc", b"bc"), Some(1));
    assert_eq!(find_subsequence(b"abc", b"abcd"), None);
    assert_eq!(find_subsequence(b"abc", b"x"), None);
    assert_eq!(find_subsequence(b"abc", b"abc"), Some(0));
}

#[test]
fn embed_appends_exact_block() {
    let out = embed_metadata(&b"BIN".to_vec(), "1.00", "2024-05-06");
    assert_eq!(out, b"BIN\n--VERSION_INFO_START--\nVersion: 1.00\nBuild Date: 2024-05-06\n--VERSION_INFO_END--\n".to_vec());
}

#[test]
fn republish_keeps_one_block() {
    let once = embed_metadata(&b"\x7fELF body".to_vec(), "1.00", "2024-05-06");
    let twice = embed_metadata(&once, "1.01", "2024-05-07");
    assert_eq!(count_markers(&twice), 1);
    assert!(carries_version(&twice, "1.01"));
    assert!(!carries_version(&twice, "1.00"));
    assert_eq!(strip_metadata(&once), b"\x7fELF body\n".to_vec());
    assert_eq!(strip_metadata(&twice), b"\x7fELF body\n\n".to_vec());
}

#[test]
fn strip_without_marker_keeps_content() {
    assert_eq!(strip_metadata(&b"plain".to_vec()), b"plain".to_vec());
}

#[test]
fn names_of_artifacts() {
    assert_eq!(artifact_name("myapp", "1.00"), "myapp_v_1.00");
    assert_eq!(sidecar_name("myapp_v_1.00"), "myapp_v_1.00.version");
}

#[test]
fn migration_moves_only_earlier_builds() {
    let names = strings(&["myapp", "myapp_v_0.99", "myapp_v_1.00", "other_v_1.00", "myapp_v_0.98", "prev_builds"]);
    assert_eq!(archive_moves(&names, "myapp", "1.00"), vec!["myapp_v_0.99", "myapp_v_0.98"]);
    let after = strings(&["myapp", "myapp_v_1.00", "other_v_1.00", "prev_builds"]);
    assert!(archive_moves(&after, "myapp", "1.00").is_empty());
}

#[test]
fn retention_keeps_ten_newest_of_fifteen() {
    let mut entries = Vec::new();
    for i in 0..15u128 {
        entries.push(ArchiveEntry { name: format!("myapp_v_1.{:02}", i), modified: 1000 + i * 7 });
        entries.push(ArchiveEntry { name: format!("myapp_v_1.{:02}.version", i), modified: 5 });
    }
    entries.push(ArchiveEntry { name: "other_v_1.00".to_string(), modified: 1 });
    let pruned = prune_plan(&entries, "myapp");
    assert_eq!(pruned, vec!["myapp_v_1.00", "myapp_v_1.01", "myapp_v_1.02", "myapp_v_1.03", "myapp_v_1.04"]);
}

#[test]
fn retention_with_ten_or_fewer_deletes_nothing() {
    let entries: Vec<ArchiveEntry> =
        (0..10u128).map(|i| ArchiveEntry { name: format!("myapp_v_0.{:02}", i), modified: i }).collect();
    assert!(prune_plan(&entries, "myapp").is_empty());
}

#[test]
fn retention_ties_keep_listing_order() {
    let entries: Vec<ArchiveEntry> =
        (0..12u128).map(|i| ArchiveEntry { name: format!("myapp_v_0.{:02}", i), modified: 3 }).collect();
    assert_eq!(prune_plan(&entries, "myapp"), vec!["myapp_v_0.10", "myapp_v_0.11"]);
}

fn build_error(a: PublishAction) -> String {
    match a {
        PublishAction::Fail(ArkhamError::BuildError(m)) => m,
        other => panic!("expected a build error, got {:?}", other),
    }
}

/// Drives one publish cycle over an in-memory directory listing.
fn run_cycle(stable: &[u8], version: &str, live: Vec<String>, archive: Vec<ArchiveEntry>) -> (Vec<u8>, Vec<String>, Vec<String>) {
    let mut p = Publisher::new("myapp".to_string(), version.to_string(), "2024-05-06".to_string());
    assert!(matches!(p.step(PublishEvent::Begin), PublishAction::CheckStable { ref path } if path == "myapp"));
    assert!(matches!(p.step(PublishEvent::Exists(true)), PublishAction::ReadStable { .. }));
    let bytes = match p.step(PublishEvent::Content(stable.to_vec())) {
        PublishAction::WriteArtifact { name, bytes } => {
            assert_eq!(name, format!("myapp_v_{}", version));
            bytes
        }
        other => panic!("{:?}", other),
    };
    assert!(matches!(p.step(PublishEvent::Done), PublishAction::InspectArtifact { .. }));
    match p.step(PublishEvent::Inspected(bytes.clone())) {
        PublishAction::Relink { link, target } => {
            assert_eq!(link, "myapp");
            assert_eq!(target, format!("myapp_v_{}", version));
        }
        other => panic!("{:?}", other),
    }
    assert!(matches!(p.step(PublishEvent::Exists(true)), PublishAction::ListLive));
    let moved = match p.step(PublishEvent::Listing(live)) {
        PublishAction::Archive { names, dir } => {
            assert_eq!(dir, "prev_builds");
            names
        }
        other => panic!("{:?}", other),
    };
    let pruned = match p.step(PublishEvent::ArchiveListing(archive)) {
        PublishAction::Prune { names, sidecars, .. } => {
            let expected: Vec<String> = names.iter().map(|n| format!("{}.version", n)).collect();
            assert_eq!(sidecars, expected);
            names
        }
        other => panic!("{:?}", other),
    };
    match p.step(PublishEvent::Done) {
        PublishAction::CheckFinal { paths } => assert_eq!(paths, vec![format!("myapp_v_{}", version), "myapp".to_string()]),
        other => panic!("{:?}", other),
    }
    assert!(matches!(p.step(PublishEvent::Exists(true)), PublishAction::Finish));
    assert_eq!(p.phase, PublishPhase::Finished);
    (bytes, moved, pruned)
}

#[test]
fn first_build_publishes_versioned_artifact() {
    let (bytes, moved, pruned) = run_cycle(b"BIN", "1.00", strings(&["myapp", "Makefile"]), vec![]);
    assert!(carries_version(&bytes, "1.00"));
    assert!(moved.is_empty());
    assert!(pruned.is_empty());
}

#[test]
fn retried_publish_does_not_duplicate_or_lose_builds() {
    let (first, _, _) = run_cycle(b"BIN", "1.01", strings(&["myapp", "myapp_v_1.00"]), vec![]);
    // The first cycle stopped after relinking: the link already names the new build.
    let live = strings(&["myapp", "myapp_v_1.00", "myapp_v_1.01"]);
    let archive = vec![ArchiveEntry { name: "myapp_v_0.99".to_string(), modified: 1 }];
    let (second, moved, pruned) = run_cycle(&first, "1.01", live, archive);
    assert_eq!(count_markers(&second), 1);
    assert_eq!(moved, vec!["myapp_v_1.00"]);
    assert!(pruned.is_empty());
}

#[test]
fn missing_executable_fails() {
    let mut p = Publisher::new("myapp".to_string(), "1.00".to_string(), "d".to_string());
    p.step(PublishEvent::Begin);
    assert_eq!(build_error(p.step(PublishEvent::Exists(false))), "Executable myapp not found");
    assert_eq!(p.phase, PublishPhase::Failed);
}

#[test]
fn mis_tagged_artifact_is_discarded() {
    let mut p = Publisher::new("myapp".to_string(), "1.00".to_string(), "d".to_string());
    p.step(PublishEvent::Begin);
    p.step(PublishEvent::Exists(true));
    p.step(PublishEvent::Content(b"BIN".to_vec()));
    p.step(PublishEvent::Done);
    match p.step(PublishEvent::Inspected(b"Version: 0.99".to_vec())) {
        PublishAction::DiscardAndFail { name, error: ArkhamError::BuildError(m) } => {
            assert_eq!(name, "myapp_v_1.00");
            assert_eq!(m, "Failed to write version info to executable!");
        }
        other => panic!("{:?}", other),
    }
}

#[test]
fn failed_link_and_final_check() {
    let mut p = Publisher::new("myapp".to_string(), "1.00".to_string(), "d".to_string());
    p.step(PublishEvent::Begin);
    p.step(PublishEvent::Exists(true));
    p.step(PublishEvent::Content(b"BIN".to_vec()));
    p.step(PublishEvent::Done);
    p.step(PublishEvent::Inspected(b"Version: 1.00".to_vec()));
    assert_eq!(build_error(p.step(PublishEvent::Exists(false))), "Failed to create Symlink!");
    assert_eq!(build_error(p.step(PublishEvent::Done)), "unexpected event in the publish cycle");
}

#[test]
fn publish_prunes_archive_with_sidecars() {
    let mut archive = Vec::new();
    for i in 0..15u128 {
        archive.push(ArchiveEntry { name: format!("myapp_v_0.{:02}", i), modified: 100 + i });
    }
    let (_, _, pruned) = run_cycle(b"BIN", "1.00", strings(&["myapp"]), archive);
    assert_eq!(pruned, vec!["myapp_v_0.00", "myapp_v_0.01", "myapp_v_0.02", "myapp_v_0.03", "myapp_v_0.04"]);
}
