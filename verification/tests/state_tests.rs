use restorefiles::drives::DriveReport;
use restorefiles::scan::GroupScan;
use restorefiles::sortin::SortinOutput;
use restorefiles::state::{progress_fields, EjectReport, MessColor, Restorefiles};

const A: &str = "DISC_A|d|f|1|2|3|4|o\n";
const B: &str = "DISC_B|d|g|1|2|3|4|o\n";

fn scan(skip: u64, check: bool, lines: &[&str]) -> GroupScan {
    let mut s = GroupScan::new(skip, check);
    for l in lines {
        if !s.feed(l.to_string()) {
            return s;
        }
    }
    s.finish_eof();
    s
}

#[test]
fn opens_blank() {
    let s = Restorefiles::new();
    assert_eq!(s.sortinname, "--");
    assert_eq!(s.msg_value, "no message");
    assert_eq!(s.mess_color, MessColor::Blue);
    assert_eq!(s.listindex, 0);
    assert!(s.listrefname.is_empty());
    assert!(!s.alt_bool);
    assert!(!s.do_progress);
}

#[test]
fn sortin_success_takes_the_group() {
    let mut s = Restorefiles::new();
    s.apply_sortin(SortinOutput {
        errcode: 0,
        errstring: "got file".to_string(),
        new_input: "/l.txt".to_string(),
        lrefname: "DISC_A".to_string(),
        linenum: 2,
        llist: vec![A.to_string(), A.to_string()],
    });
    assert_eq!(s.sortinname, "/l.txt");
    assert_eq!(s.mess_color, MessColor::Green);
    assert_eq!(s.listindex, 2);
    assert_eq!(s.bkrefname, "DISC_A");
    assert_eq!(s.msg_value, "Please mount DISC_A which has 2 files");
}

#[test]
fn sortin_failure_shows_message() {
    let mut s = Restorefiles::new();
    s.apply_sortin(SortinOutput {
        errcode: 1,
        errstring: "error getting file -- possible cancel key hit".to_string(),
        new_input: "/".to_string(),
        lrefname: "---".to_string(),
        linenum: 0,
        llist: Vec::new(),
    });
    assert_eq!(s.sortinname, "--");
    assert_eq!(s.mess_color, MessColor::Red);
    assert_eq!(s.msg_value, "error getting file -- possible cancel key hit");
}

#[test]
fn first_then_next_then_end() {
    let file = [A, A, B];
    let mut s = Restorefiles::new();
    s.sortinname = "/l.txt".to_string();
    s.apply_first(scan(0, true, &file));
    assert_eq!(s.msg_value, "Please mount DISC_A which has 2 files");
    assert_eq!(s.listindex, 2);
    s.apply_next(scan(s.listindex, false, &file));
    assert_eq!(s.msg_value, "Please mount DISC_B which has 1 files");
    assert_eq!(s.listindex, 3);
    assert_eq!(s.listrefname, vec![B.to_string()]);
    s.apply_next(scan(s.listindex, false, &file));
    assert_eq!(s.msg_value, "end of sorted input file and no more files");
    assert_eq!(s.mess_color, MessColor::Green);
    assert_eq!(s.listindex, 3);
}

#[test]
fn first_errors() {
    let mut s = Restorefiles::new();
    s.sortinname = "/l.txt".to_string();
    s.apply_first(scan(0, true, &[]));
    assert_eq!(s.msg_value, "error bytes_read == 0 for /l.txt");
    assert_eq!(s.mess_color, MessColor::Red);
    s.apply_first(scan(0, true, &["x|y\n"]));
    assert_eq!(s.msg_value, "first line of sorted input file is not valid: x|y\n");
    let mut sc = GroupScan::new(0, true);
    sc.finish_error("bad".to_string());
    s.apply_first(sc);
    assert_eq!(s.msg_value, "error of bad reading /l.txt");
    s.sortin_missing();
    assert_eq!(s.msg_value, "sorted input file does not exist");
}

#[test]
fn drive_search_finds_the_disc() {
    let mut s = Restorefiles::new();
    s.alt_bool = true;
    s.altname = "x".to_string();
    s.apply_drives(&vec![
        DriveReport::OpenFailed("permission denied".to_string()),
        DriveReport::Loaded {
            device: "\"/dev/sr0\"".to_string(),
            mounts: vec![
                "/dev/sda1 / ext4 rw 0 0\n".to_string(),
                "/dev/sr0 /media/u/BACKUP_07 udf ro 0 0\n".to_string(),
            ],
            read_error: None,
        },
    ]);
    assert_eq!(s.bkpath, "/media/u/BACKUP_07");
    assert_eq!(s.bklabel, "BACKUP_07");
    assert_eq!(s.msg_value, "There's a disc inside");
    assert_eq!(s.mess_color, MessColor::Red);
    assert!(!s.alt_bool);
    assert_eq!(s.altname, "--");
}

#[test]
fn drive_search_without_drives() {
    let mut s = Restorefiles::new();
    s.apply_drives(&vec![]);
    assert_eq!(s.msg_value, "no dvd drives found");
    s.apply_drives(&vec![DriveReport::OpenFailed("e".to_string())]);
    assert_eq!(s.msg_value, "no dvd drives found");
    assert_eq!(s.bkpath, "--");
}

#[test]
fn drive_search_messages() {
    let mut s = Restorefiles::new();
    s.apply_drives(&vec![DriveReport::TrayOpen]);
    assert_eq!(s.msg_value, "The tray is open");
    s.apply_drives(&vec![DriveReport::Empty]);
    assert_eq!(s.msg_value, "The tray is closed and no disc is inside");
    s.apply_drives(&vec![DriveReport::NotReady]);
    assert_eq!(s.msg_value, "This drive is not ready yet");
    s.apply_drives(&vec![DriveReport::StatusFailed("io".to_string())]);
    assert_eq!(s.msg_value, "error io in status dvd");
    s.apply_drives(&vec![DriveReport::Empty, DriveReport::OpenFailed("busy".to_string())]);
    assert_eq!(s.msg_value, "error busy in retracting dvd");
    s.apply_drives(&vec![DriveReport::Loaded {
        device: "\"/dev/sr0\"".to_string(),
        mounts: vec![],
        read_error: Some("denied".to_string()),
    }]);
    assert_eq!(s.msg_value, "error in read proc denied ");
    assert_eq!(s.bkpath, "--");
}

#[test]
fn exec_check() {
    let mut s = Restorefiles::new();
    assert!(!s.apply_exec_check(true, true, true));
    assert_eq!(s.msg_value, "the list of files is less than 1");
    assert_eq!(s.mess_color, MessColor::Red);
    s.listrefname = vec![A.to_string()];
    assert!(s.apply_exec_check(true, true, true));
    assert_eq!(s.msg_value, "all good and now process execution");
    assert_eq!(s.mess_color, MessColor::Green);
}

#[test]
fn copy_result_and_eject() {
    let mut s = Restorefiles::new();
    s.apply_copy_result(0, "Completed copying 2 of 2".to_string(), &vec![EjectReport::Ejected]);
    assert_eq!(s.msg_value, "Completed copying 2 of 2");
    assert_eq!(s.mess_color, MessColor::Green);
    s.apply_copy_result(0, "done".to_string(), &vec![EjectReport::EjectFailed("stuck".to_string())]);
    assert_eq!(s.msg_value, "error stuck in ejecting blu ray");
    assert_eq!(s.mess_color, MessColor::Red);
    s.apply_copy_result(0, "done".to_string(), &vec![EjectReport::OpenFailed("gone".to_string())]);
    assert_eq!(s.msg_value, "no dvd drives found");
    s.apply_copy_result(0, "done".to_string(), &vec![]);
    assert_eq!(s.msg_value, "no dvd drives found");
    s.apply_copy_result(7, "other".to_string(), &vec![EjectReport::Ejected]);
    assert_eq!(s.msg_value, "other");
    assert_eq!(s.mess_color, MessColor::Red);
}

#[test]
fn small_events() {
    let mut s = Restorefiles::new();
    s.set_alt(true);
    assert!(s.alt_bool);
    s.set_altname("LABEL".to_string());
    assert_eq!(s.altname, "LABEL");
    s.apply_targetdir(0, "ok".to_string(), "/restore".to_string());
    assert_eq!(s.targetdir, "/restore");
    assert_eq!(s.mess_color, MessColor::Green);
    s.apply_targetdir(2, "cancelled".to_string(), "/x".to_string());
    assert_eq!(s.targetdir, "/restore");
    assert_eq!(s.msg_value, "cancelled");
    assert_eq!(s.mess_color, MessColor::Red);
    s.start_progress();
    assert!(s.do_progress);
    s.show_progress("md5sum progress".to_string());
    assert_eq!(s.mess_color, MessColor::Blue);
    s.apply_progress_error();
    assert_eq!(s.msg_value, "error in Progstart::pstart routine");
    s.apply_copy_error();
    assert_eq!(s.msg_value, "error in copyx copyit routine");
}

#[test]
fn progress_messages() {
    assert_eq!(
        progress_fields("Progress|3|10| elapsed time 0.1 mins"),
        Some(("3".to_string(), "10".to_string(), " elapsed time 0.1 mins".to_string()))
    );
    assert_eq!(progress_fields("Progress|3|10"), None);
    assert_eq!(progress_fields("Other|3|10|x"), None);
    assert_eq!(progress_fields("Progress|1|2|3|4"), None);
}

#[test]
fn a_session_shows_the_listing_in_order() {
    let c = "DISC_C|d|h|1|2|3|4|o\n";
    let file = [A, A, B, c, c, c, A];
    let mut s = Restorefiles::new();
    s.sortinname = "/l.txt".to_string();
    s.apply_first(scan(0, true, &file));
    let mut shown: Vec<String> = s.listrefname.clone();
    let mut last_key = s.bkrefname.clone();
    let mut last_index = s.listindex;
    while (s.listindex as usize) < file.len() {
        s.apply_next(scan(s.listindex, false, &file));
        assert!(s.listindex > last_index);
        assert_ne!(s.bkrefname, last_key);
        shown.extend(s.listrefname.iter().cloned());
        let prefix: Vec<String> = file[..s.listindex as usize].iter().map(|l| l.to_string()).collect();
        assert_eq!(shown, prefix);
        last_key = s.bkrefname.clone();
        last_index = s.listindex;
    }
    assert_eq!(s.listindex as usize, file.len());
    s.apply_next(scan(s.listindex, false, &file));
    assert_eq!(s.msg_value, "end of sorted input file and no more files");
    assert_eq!(s.listindex as usize, file.len());
}
