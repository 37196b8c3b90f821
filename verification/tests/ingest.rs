use fuzzer::ingest::{plan_ingestion, SyncEntry};

fn entry(is_file: bool, len: u64) -> SyncEntry {
    SyncEntry { is_file, len }
}

#[test]
fn ingestion_skips_empty_and_irregular_entries() {
    let entries = vec![
        entry(true, 0),    // in-flight write: skipped
        entry(true, 5),    // ingested
        entry(false, 3),   // not a regular file: skipped
        entry(true, 1),    // ingested
        entry(false, 0),   // skipped
        entry(true, 4096), // ingested
    ];
    let picks = plan_ingestion(&entries);
    assert_eq!(picks, vec![1, 3, 5]);
}

#[test]
fn ingestion_of_empty_directory_selects_nothing() {
    let entries: Vec<SyncEntry> = Vec::new();
    let picks = plan_ingestion(&entries);
    assert!(picks.is_empty());
}

#[test]
fn ingestion_of_only_empty_files_selects_nothing() {
    let entries = vec![entry(true, 0), entry(true, 0)];
    let picks = plan_ingestion(&entries);
    assert!(picks.is_empty());
}

#[test]
fn ingestion_takes_each_eligible_entry_exactly_once() {
    let entries = vec![entry(true, 2), entry(true, 2), entry(true, 2)];
    let picks = plan_ingestion(&entries);
    assert_eq!(picks, vec![0, 1, 2]);
}
