use fuzzer::session::{
    afl_out_dir, archive_name, is_resume, plan_session, resolve_session,
};

#[test]
fn resume_marker_is_single_dash() {
    assert!(is_resume(&b"-".to_vec()));
    assert!(!is_resume(&b"seeds".to_vec()));
    assert!(!is_resume(&b"--".to_vec()));
    assert!(!is_resume(&b"".to_vec()));
}

#[test]
fn fresh_session_keeps_input_directory() {
    let p = plan_session(&b"seeds".to_vec(), &b"output".to_vec(), &b"ts".to_vec());
    assert_eq!(p.seeds_dir, b"seeds".to_vec());
    assert_eq!(p.out_dir, b"output".to_vec());
    assert!(p.archived_dir.is_none());
}

#[test]
fn resumed_session_reads_seeds_from_archive() {
    let ts = b"2024-01-02T03:04:05.678+00:00".to_vec();
    let p = plan_session(&b"-".to_vec(), &b"output".to_vec(), &ts);
    let archived = p.archived_dir.expect("resume must archive");
    assert_eq!(archived, b"angora.2024-01-02T03:04:05.678+00:00".to_vec());
    assert_eq!(
        p.seeds_dir,
        b"angora.2024-01-02T03:04:05.678+00:00/queue".to_vec()
    );
    assert_eq!(p.out_dir, b"output".to_vec());
}

#[test]
fn archive_names_differ_with_the_timestamp() {
    let a = archive_name(&b"2024-01-01T00:00:00+00:00".to_vec());
    let b = archive_name(&b"2024-01-01T00:00:01+00:00".to_vec());
    assert_ne!(a, b);
    assert_eq!(a, b"angora.2024-01-01T00:00:00+00:00".to_vec());
}

#[test]
fn resolved_resume_is_stamped_with_a_real_time() {
    // Goes through the clock: the archive name must be the working
    // directory name, a dot, and a non-empty timestamp, and the seed
    // directory must point into that archive's queue.
    let p = resolve_session(&b"-".to_vec(), &b"output".to_vec());
    let archived = p.archived_dir.expect("resume must archive");
    assert!(archived.starts_with(b"angora."));
    assert!(archived.len() > b"angora.".len());
    let mut expected_seeds = archived.clone();
    expected_seeds.extend_from_slice(b"/queue");
    assert_eq!(p.seeds_dir, expected_seeds);
    assert_eq!(p.out_dir, b"output".to_vec());
}

#[test]
fn resolved_fresh_session_archives_nothing() {
    let p = resolve_session(&b"in".to_vec(), &b"out".to_vec());
    assert_eq!(p.seeds_dir, b"in".to_vec());
    assert_eq!(p.out_dir, b"out".to_vec());
    assert!(p.archived_dir.is_none());
}

#[test]
fn afl_directory_nests_under_requested_output() {
    assert_eq!(afl_out_dir(&b"sync_dir".to_vec()), b"sync_dir/angora".to_vec());
}
