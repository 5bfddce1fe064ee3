use restorefiles::copy::{copy_mode, copy_paths, entry_has_fields, CopyJob, CopyMode};

const E1: &str = "DISC_A|backup\\photos|img1.jpg|x|x|x|x|home\\u\\photos\n";
const E2: &str = "DISC_A|backup/docs|a.txt|x|x|x|x|home/u/docs";

#[test]
fn paths_of_a_record() {
    let (s, t) = copy_paths("/media/DISC_A", "/restore", E1);
    assert_eq!(s, "/media/DISC_A/backup/photos/img1.jpg");
    assert_eq!(t, "/restore/home/u/photos\n/img1.jpg");
    let (s, t) = copy_paths("/m", "/r", E2);
    assert_eq!(s, "/m/backup/docs/a.txt");
    assert_eq!(t, "/r/home/u/docs/a.txt");
}

#[test]
fn records_need_eight_fields() {
    assert!(entry_has_fields(E1));
    assert!(!entry_has_fields("A|b|c"));
}

#[test]
fn four_in_background_then_one_waited() {
    let mut n = 0;
    let mut modes = Vec::new();
    for _ in 0..10 {
        let (m, next) = copy_mode(n);
        assert!(next <= 4);
        modes.push(m);
        n = next;
    }
    assert_eq!(modes, vec![CopyMode::Spawn, CopyMode::Spawn, CopyMode::Spawn, CopyMode::Spawn, CopyMode::Wait, CopyMode::Spawn, CopyMode::Spawn, CopyMode::Spawn, CopyMode::Spawn, CopyMode::Wait]);
}

#[test]
fn a_run_that_copies_everything() {
    let mut job = CopyJob::new("/m".to_string(), "/r".to_string(), vec![E1.to_string(), E2.to_string()]);
    let mut modes = Vec::new();
    while job.more() {
        assert!(job.current_ok());
        let _ = job.current_paths();
        modes.push(job.step(true, false).unwrap());
    }
    assert_eq!(modes, vec![CopyMode::Spawn, CopyMode::Spawn]);
    assert_eq!(job.outcome(), (0, "Completed copying 2 of 2".to_string()));
    assert_eq!(job.end_message(), "Progress|2|2| end of copy process");
}

#[test]
fn a_run_stops_at_a_missing_source() {
    let mut job = CopyJob::new("/m".to_string(), "/r".to_string(), vec![E2.to_string(), E1.to_string()]);
    assert_eq!(job.step(false, false), None);
    assert!(!job.more());
    assert_eq!(
        job.outcome(),
        (0, "********* Copy: ERROR /m/backup/docs/a.txt does not exist **********".to_string())
    );
}

#[test]
fn a_run_stops_at_an_existing_target() {
    let mut job = CopyJob::new("/m".to_string(), "/r".to_string(), vec![E2.to_string()]);
    assert_eq!(job.step(true, true), None);
    assert_eq!(
        job.outcome(),
        (0, "********* Copy: ERROR /r/home/u/docs/a.txt already exists **********".to_string())
    );
    assert_eq!(job.linenum, 1);
}

#[test]
fn an_empty_run() {
    let job = CopyJob::new("/m".to_string(), "/r".to_string(), Vec::new());
    assert!(!job.more());
    assert_eq!(job.outcome(), (0, "Completed copying 0 of 0".to_string()));
    assert_eq!(job.end_message(), "Progress|0|0| end of copy process");
}
