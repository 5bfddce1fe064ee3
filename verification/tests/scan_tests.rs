use restorefiles::scan::{first_field, GroupScan, ScanPhase};

const A1: &str = "DISC_A|dir1|f1.txt|a|b|c|d|home/x\n";
const A2: &str = "DISC_A|dir2|f2.txt|a|b|c|d|home/y\n";
const B1: &str = "DISC_B|dir3|f3.txt|a|b|c|d|home/z\n";

fn feed_all(scan: &mut GroupScan, lines: &[&str]) -> usize {
    let mut fed = 0;
    for l in lines {
        fed += 1;
        if !scan.feed(l.to_string()) {
            return fed;
        }
    }
    scan.finish_eof();
    fed
}

#[test]
fn first_field_is_text_before_bar() {
    assert_eq!(first_field(A1), "DISC_A");
    assert_eq!(first_field("no bar\n"), "no bar\n");
    assert_eq!(first_field("|x"), "");
}

#[test]
fn first_group_stops_at_other_disc() {
    let mut scan = GroupScan::new(0, true);
    let fed = feed_all(&mut scan, &[A1, A2, B1, A1]);
    assert_eq!(fed, 3);
    assert_eq!(scan.phase, ScanPhase::GroupEnded);
    assert_eq!(scan.linenum, 2);
    assert_eq!(scan.refname, "DISC_A");
    assert_eq!(scan.list, vec![A1.to_string(), A2.to_string()]);
}

#[test]
fn first_group_to_end_of_input() {
    let mut scan = GroupScan::new(0, true);
    feed_all(&mut scan, &[A1, A2]);
    assert_eq!(scan.phase, ScanPhase::EndOfInput);
    assert_eq!(scan.linenum, 2);
    assert_eq!(scan.list.len(), 2);
}

#[test]
fn bad_first_record() {
    let mut scan = GroupScan::new(0, true);
    let fed = feed_all(&mut scan, &["DISC_A|only|two\n", A2]);
    assert_eq!(fed, 1);
    assert_eq!(scan.phase, ScanPhase::BadHeader);
    assert_eq!(scan.linenum, 1);
    assert_eq!(scan.refname, "---");
    assert!(scan.list.is_empty());
    assert_eq!(scan.bad_line, "DISC_A|only|two\n");
}

#[test]
fn next_group_skips_earlier_lines_without_header_check() {
    let mut scan = GroupScan::new(2, false);
    let fed = feed_all(&mut scan, &[A1, A2, "DISC_B|short\n", B1]);
    assert_eq!(fed, 4);
    assert_eq!(scan.phase, ScanPhase::EndOfInput);
    assert_eq!(scan.linenum, 4);
    assert_eq!(scan.refname, "DISC_B");
    assert_eq!(scan.list, vec!["DISC_B|short\n".to_string(), B1.to_string()]);
}

#[test]
fn empty_input() {
    let mut scan = GroupScan::new(0, true);
    feed_all(&mut scan, &[]);
    assert_eq!(scan.phase, ScanPhase::EndOfInput);
    assert_eq!(scan.linenum, 0);
    assert_eq!(scan.refname, "---");
}

#[test]
fn past_the_end() {
    let mut scan = GroupScan::new(5, false);
    feed_all(&mut scan, &[A1, A2]);
    assert_eq!(scan.phase, ScanPhase::EndOfInput);
    assert_eq!(scan.linenum, 2);
    assert!(scan.list.is_empty());
}

#[test]
fn read_error_keeps_what_was_taken() {
    let mut scan = GroupScan::new(0, true);
    assert!(scan.feed(A1.to_string()));
    scan.finish_error("stream did not contain valid UTF-8".to_string());
    assert_eq!(scan.phase, ScanPhase::ReadFailed);
    assert_eq!(scan.read_error, "stream did not contain valid UTF-8");
    assert_eq!(scan.list, vec![A1.to_string()]);
}

#[test]
fn groups_tile_the_listing() {
    let file = [A1, A2, B1, B1, A1];
    let mut start = 0u64;
    let mut seen: Vec<String> = Vec::new();
    while (start as usize) < file.len() {
        let mut scan = GroupScan::new(start, false);
        feed_all(&mut scan, &file);
        assert!(scan.linenum > start);
        for l in &scan.list {
            assert_eq!(first_field(l), scan.refname);
        }
        seen.extend(scan.list.iter().cloned());
        start = scan.linenum;
    }
    let whole: Vec<String> = file.iter().map(|s| s.to_string()).collect();
    assert_eq!(seen, whole);
}
