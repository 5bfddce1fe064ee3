use restorefiles::scan::GroupScan;
use restorefiles::sortin::{
    check_line_count, check_line_count_text, dialog_start, sortin_from_scan, sortin_no_file,
};

#[test]
fn dialog_starts_in_parent_directory() {
    assert_eq!(dialog_start("/home/u/list.txt", true), Some("/home/u".to_string()));
    assert_eq!(dialog_start("/home/u/", true), Some("/home".to_string()));
    assert_eq!(dialog_start("/nowhere/list.txt", false), Some("/".to_string()));
}

#[test]
fn dialog_start_of_a_root_has_none() {
    assert_eq!(dialog_start("/", true), None);
}

#[test]
fn no_file_chosen() {
    let o = sortin_no_file("/home/u");
    assert_eq!(o.errcode, 1);
    assert_eq!(o.errstring, "error getting file -- possible cancel key hit");
    assert_eq!(o.new_input, "/home/u");
    assert_eq!(o.lrefname, "---");
    assert_eq!(o.linenum, 0);
    assert!(o.llist.is_empty());
}

#[test]
fn line_count_reads() {
    assert_eq!(check_line_count_text("12 /data/list.txt\n", "/data/list.txt").ok(), Some(12));
    assert_eq!(check_line_count_text("+3 f\n", "f").ok(), Some(3));
}

#[test]
fn line_count_not_a_number() {
    let o = check_line_count_text("wc: f: No such file\n", "f").err().unwrap();
    assert_eq!(o.errcode, 2);
    assert_eq!(o.errstring, "size of wc: is invalid for wc -l command call");
    assert_eq!(o.new_input, "f");
    assert_eq!(o.lrefname, "---");
    assert_eq!(o.linenum, 0);
}

#[test]
fn line_count_of_minus_9999_is_taken_as_unreadable() {
    let o = check_line_count_text("-9999 f\n", "f").err().unwrap();
    assert_eq!(o.errcode, 2);
    assert_eq!(o.errstring, "size of -9999 is invalid for wc -l command call");
}

#[test]
fn line_count_too_small() {
    let o = check_line_count_text("1 /data/list.txt\n", "/data/list.txt").err().unwrap();
    assert_eq!(o.errcode, 3);
    assert_eq!(o.errstring, "size of 1 is less than 2 for /data/list.txt");
    let o = check_line_count_text("0 x\n", "x").err().unwrap();
    assert_eq!(o.errstring, "size of 0 is less than 2 for x");
}

#[test]
fn negative_line_count_wraps() {
    assert_eq!(check_line_count_text("-5 f\n", "f").ok(), Some(u64::MAX - 4));
}

#[test]
fn line_count_from_bytes() {
    assert_eq!(check_line_count(b"42 f\n", "f").ok(), Some(42));
    let o = check_line_count(&[0xff, b' ', b'f'], "f").err().unwrap();
    assert_eq!(o.errcode, 2);
    assert_eq!(o.errstring, "size of \u{FFFD} is invalid for wc -l command call");
}

fn scanned(lines: &[&str]) -> GroupScan {
    let mut scan = GroupScan::new(0, true);
    for l in lines {
        if !scan.feed(l.to_string()) {
            return scan;
        }
    }
    scan.finish_eof();
    scan
}

#[test]
fn sortin_got_file() {
    let a = "A|d|f|1|2|3|4|o\n";
    let b = "B|d|g|1|2|3|4|o\n";
    let o = sortin_from_scan("/l.txt".to_string(), scanned(&[a, a, b]));
    assert_eq!(o.errcode, 0);
    assert_eq!(o.errstring, "got file");
    assert_eq!(o.new_input, "/l.txt");
    assert_eq!(o.lrefname, "A");
    assert_eq!(o.linenum, 2);
    assert_eq!(o.llist, vec![a.to_string(), a.to_string()]);
}

#[test]
fn sortin_empty_file() {
    let o = sortin_from_scan("/l.txt".to_string(), scanned(&[]));
    assert_eq!(o.errcode, 4);
    assert_eq!(o.errstring, "error bytes_read == 0 for /l.txt");
}

#[test]
fn sortin_bad_first_line() {
    let o = sortin_from_scan("/l.txt".to_string(), scanned(&["A|b\n"]));
    assert_eq!(o.errcode, 5);
    assert_eq!(o.errstring, "first line of sorted input file is not valid: A|b\n");
    assert_eq!(o.linenum, 1);
    assert_eq!(o.lrefname, "---");
}

#[test]
fn sortin_read_error() {
    let mut scan = GroupScan::new(0, true);
    scan.finish_error("oops".to_string());
    let o = sortin_from_scan("/l.txt".to_string(), scan);
    assert_eq!(o.errcode, 6);
    assert_eq!(o.errstring, "error of oops reading /l.txt");
}
