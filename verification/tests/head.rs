use jj_vcs::{apply_refresh, get_diff_base, head_snapshot_from_output, Error, HeadSnapshot};

#[test]
fn diff_base_is_structurally_unsupported() {
    assert_eq!(get_diff_base("src/main.rs"), Err(Error::UnsupportedOperation));
    assert_eq!(get_diff_base(""), Err(Error::UnsupportedOperation));
}

#[test]
fn successful_fetch_installs_the_label() {
    let out = b"qpvuntsm (main, feature)".to_vec();
    let snapshot = head_snapshot_from_output(true, out).unwrap();
    assert_eq!(snapshot.load(), "qpvuntsm (main, feature)");
}

#[test]
fn fetch_with_no_bookmarks_keeps_empty_group() {
    let out = b"qpvuntsm ()".to_vec();
    let snapshot = head_snapshot_from_output(true, out).unwrap();
    assert_eq!(snapshot.load(), "qpvuntsm ()");
}

#[test]
fn failed_exit_yields_invocation_failure() {
    let r = head_snapshot_from_output(false, b"qpvuntsm (main)".to_vec());
    assert!(matches!(r, Err(Error::InvocationFailure)));
}

#[test]
fn invalid_output_yields_decoding_failure() {
    let r = head_snapshot_from_output(true, vec![0xc3, 0x28]);
    assert!(matches!(r, Err(Error::DecodingFailure)));
}

#[test]
fn failed_fetch_keeps_previous_snapshot() {
    let previous = HeadSnapshot::new("old-head (main)".to_string());
    let fetched = head_snapshot_from_output(false, Vec::new());
    assert!(matches!(fetched, Err(Error::InvocationFailure)));
    let kept = apply_refresh(Some(previous), fetched);
    assert_eq!(kept.unwrap().load(), "old-head (main)");
}

#[test]
fn successful_refresh_replaces_snapshot() {
    let previous = HeadSnapshot::new("old-head ()".to_string());
    let fetched = head_snapshot_from_output(true, b"new-head ()".to_vec());
    let installed = apply_refresh(Some(previous), fetched);
    assert_eq!(installed.unwrap().load(), "new-head ()");
}

#[test]
fn store_replaces_the_whole_value_for_readers() {
    let mut snapshot = HeadSnapshot::new("first ()".to_string());
    assert_eq!(snapshot.load(), "first ()");
    snapshot.store("second (main)".to_string());
    assert_eq!(snapshot.load(), "second (main)");
}
