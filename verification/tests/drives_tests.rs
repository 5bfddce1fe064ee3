use restorefiles::drives::{choose_mount, drive_report_ok, mount_label, DriveReport};

fn mounts() -> Vec<String> {
    vec![
        "/dev/sda1 / ext4 rw 0 0\n".to_string(),
        "/dev/sr0 /media/u/BACKUP_07 udf ro 0 0\n".to_string(),
        "proc /proc proc rw 0 0\n".to_string(),
    ]
}

#[test]
fn finds_the_discs_mount_point() {
    let m = choose_mount(&mounts(), "\"/dev/sr0\"", "--".to_string());
    assert_eq!(m, "/media/u/BACKUP_07");
}

#[test]
fn keeps_the_mount_point_when_none_matches() {
    let m = choose_mount(&mounts(), "\"/dev/sr1\"", "--".to_string());
    assert_eq!(m, "--");
}

#[test]
fn the_last_matching_line_wins() {
    let mut ls = mounts();
    ls.push("/dev/sr0 /mnt/second udf ro 0 0\n".to_string());
    assert_eq!(choose_mount(&ls, "\"/dev/sr0\"", "--".to_string()), "/mnt/second");
}

#[test]
fn labels_are_last_components() {
    assert_eq!(mount_label("/media/u/BACKUP_07"), "BACKUP_07");
    assert_eq!(mount_label("plain"), "plain");
    assert_eq!(mount_label("/media/u/"), "");
    assert!(!mount_label("/a/b/c").contains('/'));
}

#[test]
fn report_checks() {
    assert!(drive_report_ok(&DriveReport::Empty));
    assert!(drive_report_ok(&DriveReport::Loaded {
        device: "\"/dev/sr0\"".to_string(),
        mounts: mounts(),
        read_error: None,
    }));
    assert!(!drive_report_ok(&DriveReport::Loaded {
        device: "x".to_string(),
        mounts: mounts(),
        read_error: None,
    }));
    assert!(drive_report_ok(&DriveReport::Loaded {
        device: "x".to_string(),
        mounts: vec!["proc /proc proc rw 0 0\n".to_string()],
        read_error: None,
    }));
    assert!(!drive_report_ok(&DriveReport::Loaded {
        device: "\"/dev/sr0\"".to_string(),
        mounts: vec!["nospace\n".to_string()],
        read_error: None,
    }));
}

#[test]
fn an_uncut_path_is_fine_without_dev_lines() {
    let ls = vec!["proc /proc proc rw 0 0\n".to_string()];
    assert_eq!(choose_mount(&ls, "x", "--".to_string()), "--");
}
