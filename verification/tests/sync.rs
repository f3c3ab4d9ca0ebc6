use nvmd::sync::CursorSync;

#[test]
fn emits_only_changed_valid_lines() {
    let mut sync = CursorSync::new(Some("/tmp/cursor.txt".to_owned()));

    assert_eq!(sync.take_changed_line(Some("12\n")), Some(12));
    assert_eq!(sync.take_changed_line(Some("12\n")), None);

    assert_eq!(sync.take_changed_line(Some("18\n")), Some(18));
}

#[test]
fn ignores_zero_garbage_and_unreadable_files() {
    let mut sync = CursorSync::new(Some("/tmp/cursor.txt".to_owned()));
    assert_eq!(sync.take_changed_line(Some("0")), None);
    assert_eq!(sync.take_changed_line(Some("line 3")), None);
    assert_eq!(sync.take_changed_line(None), None);
    assert_eq!(sync.take_changed_line(Some("  3  ")), Some(3));
}

#[test]
fn disabled_sync_hands_out_nothing() {
    let mut sync = CursorSync::new(None);
    assert!(!sync.is_enabled());
    assert_eq!(sync.take_changed_line(Some("5")), None);
    assert!(CursorSync::new(Some("/tmp/c".to_owned())).is_enabled());
}
