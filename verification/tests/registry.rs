use agentfs_fskit::registry::{
    id_column_width, list_sessions, mount_column_width, render_report, run_dir,
    session_mount_path, SessionInfo,
};

fn ids(names: &[&str]) -> Vec<Vec<u8>> {
    names.iter().map(|n| n.as_bytes().to_vec()).collect()
}

#[test]
fn default_listing_reports_only_the_live_candidate() {
    let candidates = ids(&["s1", "s2", "s3"]);
    let live = ids(&["s2"]);
    let root = b"/run".to_vec();
    let rows = list_sessions(&candidates, &live, &root, false);
    assert_eq!(rows.len(), 1);
    assert_eq!(rows[0].id, b"s2".to_vec());
    assert_eq!(rows[0].mountpoint, Some(b"/run/s2/mnt".to_vec()));
}

#[test]
fn all_mode_reports_every_candidate_sorted() {
    let candidates = ids(&["s3", "s1", "s2"]);
    let live = ids(&["s2"]);
    let root = b"/run".to_vec();
    let rows = list_sessions(&candidates, &live, &root, true);
    assert_eq!(rows.len(), 3);
    assert_eq!(rows[0].id, b"s1".to_vec());
    assert!(rows[0].mountpoint.is_none());
    assert_eq!(rows[1].id, b"s2".to_vec());
    assert_eq!(rows[1].mountpoint, Some(b"/run/s2/mnt".to_vec()));
    assert_eq!(rows[2].id, b"s3".to_vec());
    assert!(rows[2].mountpoint.is_none());
}

#[test]
fn mountpoint_is_recomputed_from_the_directory() {
    assert_eq!(
        session_mount_path(&b"/home/u/.agentfs/run".to_vec(), &b"abc".to_vec()),
        b"/home/u/.agentfs/run/abc/mnt".to_vec()
    );
}

#[test]
fn column_widths_floor_at_ten() {
    let rows = vec![SessionInfo { id: b"s1".to_vec(), mountpoint: None }];
    assert_eq!(id_column_width(&rows), 10);
    assert_eq!(mount_column_width(&rows), 10);
}

#[test]
fn column_widths_track_the_widest_field() {
    let rows = vec![
        SessionInfo {
            id: b"a-rather-long-session-id".to_vec(),
            mountpoint: Some(b"/tmp/mnt".to_vec()),
        },
        SessionInfo { id: b"b".to_vec(), mountpoint: Some(b"/a/very/long/mountpoint/path".to_vec()) },
    ];
    assert_eq!(id_column_width(&rows), 24);
    assert_eq!(mount_column_width(&rows), 28);
}

#[test]
fn report_renders_the_table() {
    let rows = vec![
        SessionInfo { id: b"s1".to_vec(), mountpoint: None },
        SessionInfo { id: b"s2".to_vec(), mountpoint: Some(b"/run/s2/mnt".to_vec()) },
    ];
    let text = String::from_utf8(render_report(&rows, &b"/run".to_vec(), true)).unwrap();
    let expected = "SESSION ID  MOUNTPOINT   STATUS\n\
                    s1          -            stopped\n\
                    s2          /run/s2/mnt  running\n";
    assert_eq!(text, expected);
}

#[test]
fn report_names_the_empty_cases() {
    let rows: Vec<SessionInfo> = Vec::new();
    let all = String::from_utf8(render_report(&rows, &b"/run".to_vec(), true)).unwrap();
    assert_eq!(all, "No sandbox sessions found in /run\n");
    let def = String::from_utf8(render_report(&rows, &b"/run".to_vec(), false)).unwrap();
    assert_eq!(def, "No running sandbox sessions. Use -a to show all sessions.\n");
}

#[test]
fn run_dir_ends_with_the_fixed_subpath() {
    let d = run_dir();
    assert!(d.ends_with(b"/.agentfs/run"));
}
