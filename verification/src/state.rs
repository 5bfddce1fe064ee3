//! The state of the restore window and how each event changes it.
//!
//! The window itself, the dialogs, the drives, the files and the timer live
//! outside the library: they hand their results to the methods here, which
//! decide what the window shows next.

use vstd::prelude::*;
use crate::drives::{
    choose_mount, drive_message, label_of, mount_after_all, mount_label,
    opened_count, report_ok, DriveReport,
};
use crate::execpress::{execpress, execpress_code, execpress_message};
use crate::scan::{
    block, group_bound, group_end, key_of, lemma_group_tiles, lemma_groups_in_order,
    lemma_scan_takes_group, GroupScan, ScanPhase,
};
use crate::sortin::SortinOutput;
use crate::text::{
    concat2, concat3, decimal, decimal_string, lemma_split_concat, lemma_split_plain, split_on,
    split_str, views,
};

verus! {

/// The error a background task may report. The copy run and the progress
/// timer report none: each always ends with `Ok`.
#[derive(Debug, Clone)]
pub enum Error {
    APIError,
}

/// What the progress timer hands back when it fires.
#[derive(Debug, Clone)]
pub struct Progstart {}

/// The colour of the status message.
#[derive(PartialEq, Eq, Structural, Clone, Copy, Debug)]
pub enum MessColor {
    Red,
    Green,
    Blue,
}

/// What became of one optical drive when ejecting the disc.
pub enum EjectReport {
    /// The drive could not be opened; the error's text.
    OpenFailed(String),
    /// The disc was ejected.
    Ejected,
    /// Ejecting failed; the error's text.
    EjectFailed(String),
}

/// The state of the restore window that the events change.
pub struct Restorefiles {
    /// The sorted input listing.
    pub sortinname: String,
    /// The disc name of the current group.
    pub bkrefname: String,
    /// The records of the current group.
    pub listrefname: Vec<String>,
    /// The number of the last line of the current group.
    pub listindex: u64,
    pub bklabel: String,
    /// Where the disc is mounted.
    pub bkpath: String,
    pub mess_color: MessColor,
    pub msg_value: String,
    pub altname: String,
    pub alt_bool: bool,
    /// Where the files are restored to.
    pub targetdir: String,
    pub do_progress: bool,
}

/// The window state as values.
#[verifier::ext_equal]
pub struct RestoreView {
    pub sortinname: Seq<char>,
    pub bkrefname: Seq<char>,
    pub listrefname: Seq<Seq<char>>,
    pub listindex: u64,
    pub bklabel: Seq<char>,
    pub bkpath: Seq<char>,
    pub mess_color: MessColor,
    pub msg_value: Seq<char>,
    pub altname: Seq<char>,
    pub alt_bool: bool,
    pub targetdir: Seq<char>,
    pub do_progress: bool,
}

impl View for Restorefiles {
    type V = RestoreView;

    open spec fn view(&self) -> RestoreView {
        RestoreView {
            sortinname: self.sortinname@,
            bkrefname: self.bkrefname@,
            listrefname: views(self.listrefname@),
            listindex: self.listindex,
            bklabel: self.bklabel@,
            bkpath: self.bkpath@,
            mess_color: self.mess_color,
            msg_value: self.msg_value@,
            altname: self.altname@,
            alt_bool: self.alt_bool,
            targetdir: self.targetdir@,
            do_progress: self.do_progress,
        }
    }
}

/// The message asking for the disc of a group.
pub open spec fn mount_message(name: Seq<char>, count: nat) -> Seq<char> {
    "Please mount "@ + name + " which has "@ + decimal(count) + " files"@
}

/// The state after a group was read: it becomes the current group.
pub open spec fn with_group(
    v: RestoreView,
    listindex: u64,
    list: Seq<Seq<char>>,
    name: Seq<char>,
) -> RestoreView {
    RestoreView {
        mess_color: MessColor::Green,
        listindex,
        listrefname: list,
        bkrefname: name,
        msg_value: mount_message(name, list.len()),
        ..v
    }
}

/// The state with a new message in a new colour.
pub open spec fn with_message(v: RestoreView, msg: Seq<char>, color: MessColor) -> RestoreView {
    RestoreView { msg_value: msg, mess_color: color, ..v }
}

/// The last message while ejecting, starting from `msg`.
pub open spec fn eject_message(es: Seq<EjectReport>, msg: Seq<char>) -> Seq<char>
    decreases es.len(),
{
    if es.len() == 0 {
        msg
    } else {
        match es.last() {
            EjectReport::OpenFailed(e) => "error "@ + e@ + " in opening blu ray"@,
            EjectReport::EjectFailed(e) => "error "@ + e@ + " in ejecting blu ray"@,
            EjectReport::Ejected => eject_message(es.drop_last(), msg),
        }
    }
}

/// How many drives could be opened for ejecting.
pub open spec fn eject_opened(es: Seq<EjectReport>) -> nat
    decreases es.len(),
{
    if es.len() == 0 {
        0
    } else {
        eject_opened(es.drop_last()) + (if es.last() is OpenFailed { 0nat } else { 1nat })
    }
}

/// Some disc was ejected.
pub open spec fn any_ejected(es: Seq<EjectReport>) -> bool
    decreases es.len(),
{
    es.len() > 0 && (es.last() is Ejected || any_ejected(es.drop_last()))
}

/// The four fields of a progress message `Progress|done|total|text`, when
/// it is one.
pub open spec fn progress_fields_of(msg: Seq<char>) -> Option<(Seq<char>, Seq<char>, Seq<char>)> {
    let f = split_on(msg, '|');
    if f.len() == 4 && f[0] == "Progress"@ {
        Some((f[1], f[2], f[3]))
    } else {
        None
    }
}

/// The fields of a progress message: its done and total counts and its
/// text, when it has four `|`-separated fields and the first is `Progress`.
pub fn progress_fields(msg: &str) -> (r: Option<(String, String, String)>)
    ensures
        match progress_fields_of(msg@) {
            Some((a, b, c)) => r matches Some((x, y, z)) && x@ == a && y@ == b && z@ == c,
            None => r is None,
        },
{
    let mut f = split_str(msg, '|');
    assert(views(f@).len() == f@.len());
    if f.len() != 4 {
        return None;
    }
    assert(f@[0]@ == views(f@)[0]);
    assert(f@[1]@ == views(f@)[1]);
    assert(f@[2]@ == views(f@)[2]);
    assert(f@[3]@ == views(f@)[3]);
    let tag = String::from_str("Progress");
    if f[0] != tag {
        return None;
    }
    let c = f.pop().unwrap();
    let b = f.pop().unwrap();
    let a = f.pop().unwrap();
    Some((a, b, c))
}

impl Restorefiles {
    /// The window as it opens.
    pub open spec fn initial() -> RestoreView {
        RestoreView {
            sortinname: "--"@,
            bkrefname: "--"@,
            listrefname: Seq::empty(),
            listindex: 0,
            bklabel: "--"@,
            bkpath: "--"@,
            mess_color: MessColor::Blue,
            msg_value: "no message"@,
            altname: "--"@,
            alt_bool: false,
            targetdir: "--"@,
            do_progress: false,
        }
    }

    /// The window as it opens.
    pub fn new() -> (s: Restorefiles)
        ensures
            s@ == Self::initial(),
    {
        let s = Restorefiles {
            sortinname: String::from_str("--"),
            bkrefname: String::from_str("--"),
            listrefname: Vec::new(),
            listindex: 0,
            bklabel: String::from_str("--"),
            bkpath: String::from_str("--"),
            mess_color: MessColor::Blue,
            msg_value: String::from_str("no message"),
            altname: String::from_str("--"),
            alt_bool: false,
            targetdir: String::from_str("--"),
            do_progress: false,
        };
        assert(s@ =~= Self::initial());
        s
    }

    /// A new sorted input was asked for; `out` is what the request reported.
    pub fn apply_sortin(&mut self, out: SortinOutput)
        ensures
            out.errcode == 0 ==> final(self)@ == with_group(
                RestoreView { sortinname: out.new_input@, ..old(self)@ },
                out.linenum,
                views(out.llist@),
                out.lrefname@,
            ),
            out.errcode != 0 ==> final(self)@ == with_message(old(self)@, out.errstring@, MessColor::Red),
    {
        self.mess_color = MessColor::Red;
        if out.errcode == 0 {
            self.sortinname = out.new_input;
            self.mess_color = MessColor::Green;
            self.listindex = out.linenum;
            self.listrefname = out.llist;
            self.bkrefname = out.lrefname;
            self.msg_value = self.mount_message_now();
            assert(self@ =~= with_group(
                RestoreView { sortinname: self.sortinname@, ..old(self)@ },
                out.linenum,
                views(self.listrefname@),
                self.bkrefname@,
            ));
        } else {
            self.msg_value = out.errstring;
            assert(self@ =~= with_message(old(self)@, out.errstring@, MessColor::Red));
        }
    }

    /// The message asking for the disc of the current group.
    fn mount_message_now(&self) -> (m: String)
        ensures
            m@ == mount_message(self.bkrefname@, self.listrefname@.len()),
    {
        let count = decimal_string(self.listrefname.len() as u64);
        let head = concat3("Please mount ", self.bkrefname.as_str(), " which has ");
        concat3(head.as_str(), count.as_str(), " files")
    }

    /// The drives were searched for the disc; `drives` holds what became of
    /// each, in order. The message ends as the last drive left it, or says
    /// that no drive could be opened; a mount point found for the disc
    /// becomes the disc path and its last component the label.
    pub fn apply_drives(&mut self, drives: &Vec<DriveReport>)
        requires
            forall|i: int| 0 <= i < drives@.len() ==> report_ok(#[trigger] drives@[i]),
        ensures
            ({
                let ds = drives@;
                let n = opened_count(ds);
                let m = mount_after_all(ds, "--"@);
                let base = RestoreView {
                    mess_color: MessColor::Red,
                    alt_bool: false,
                    altname: "--"@,
                    ..old(self)@
                };
                &&& n < 1 ==> final(self)@ == RestoreView { msg_value: "no dvd drives found"@, ..base }
                &&& n >= 1 && m == "--"@ ==> final(self)@ == RestoreView {
                    msg_value: drive_message(ds.last()),
                    ..base
                }
                &&& n >= 1 && m != "--"@ ==> final(self)@ == RestoreView {
                    msg_value: drive_message(ds.last()),
                    bkpath: m,
                    bklabel: label_of(m),
                    ..base
                }
            }),
    {
        let mut n: usize = 0;
        let mut mountv = String::from_str("--");
        let mut i: usize = 0;
        assert(drives@.take(0) =~= Seq::<DriveReport>::empty());
        while i < drives.len()
            invariant
                i <= drives@.len(),
                forall|j: int| 0 <= j < drives@.len() ==> report_ok(#[trigger] drives@[j]),
                n <= i,
                n == opened_count(drives@.take(i as int)),
                mountv@ == mount_after_all(drives@.take(i as int), "--"@),
            decreases drives@.len() - i,
        {
            assert(drives@.take(i + 1).drop_last() =~= drives@.take(i as int));
            assert(drives@.take(i + 1).last() == drives@[i as int]);
            assert(report_ok(drives@[i as int]));
            match &drives[i] {
                DriveReport::OpenFailed(_) => {},
                DriveReport::Loaded { device, mounts, read_error } => {
                    n = n + 1;
                    mountv = choose_mount(mounts, device.as_str(), mountv);
                },
                _ => {
                    n = n + 1;
                },
            }
            i += 1;
        }
        assert(drives@.take(drives@.len() as int) =~= drives@);
        self.mess_color = MessColor::Red;
        self.alt_bool = false;
        self.altname = String::from_str("--");
        if n < 1 {
            self.msg_value = String::from_str("no dvd drives found");
        } else {
            self.msg_value = drive_message_of(&drives[drives.len() - 1]);
            let none = String::from_str("--");
            if mountv != none {
                self.bklabel = mount_label(mountv.as_str());
                self.bkpath = mountv;
            }
        }
        assert(views(self.listrefname@) =~= views(old(self).listrefname@));
    }

    /// The alternative label name was edited.
    pub fn set_altname(&mut self, value: String)
        ensures
            final(self)@ == (RestoreView { altname: value@, ..old(self)@ }),
    {
        self.altname = value;
    }

    /// The alternative label box was ticked or cleared.
    pub fn set_alt(&mut self, picked: bool)
        ensures
            final(self)@ == (RestoreView { alt_bool: picked, ..old(self)@ }),
    {
        self.alt_bool = picked;
    }

    /// A target directory was asked for; `errcode` 0 means `newinput` is it.
    pub fn apply_targetdir(&mut self, errcode: u32, errstr: String, newinput: String)
        ensures
            errcode == 0 ==> final(self)@ == (RestoreView {
                msg_value: errstr@,
                targetdir: newinput@,
                mess_color: MessColor::Green,
                ..old(self)@
            }),
            errcode != 0 ==> final(self)@ == with_message(old(self)@, errstr@, MessColor::Red),
    {
        self.msg_value = errstr;
        if errcode == 0 {
            self.targetdir = newinput;
            self.mess_color = MessColor::Green;
        } else {
            self.mess_color = MessColor::Red;
        }
    }

    /// The sorted input listing was not found on disk.
    pub fn sortin_missing(&mut self)
        ensures
            final(self)@ == with_message(old(self)@, "sorted input file does not exist"@, MessColor::Red),
    {
        self.msg_value = String::from_str("sorted input file does not exist");
        self.mess_color = MessColor::Red;
    }

    /// The first group of the sorted input was read by `scan`: it becomes
    /// the current group, unless the input was empty, its first record
    /// lacks separators or reading failed.
    pub fn apply_first(&mut self, scan: GroupScan)
        requires
            scan.wf(),
            scan.skip == 0,
            scan.check_header,
            scan.phase != ScanPhase::Reading,
        ensures
            scan.phase == ScanPhase::BadHeader ==> final(self)@ == with_message(
                old(self)@,
                "first line of sorted input file is not valid: "@ + scan.bad_line@,
                MessColor::Red,
            ),
            scan.phase == ScanPhase::ReadFailed ==> final(self)@ == with_message(
                old(self)@,
                "error of "@ + scan.read_error@ + " reading "@ + old(self).sortinname@,
                MessColor::Red,
            ),
            scan.phase == ScanPhase::EndOfInput && scan.linenum < 1 ==> final(self)@ == with_message(
                old(self)@,
                "error bytes_read == 0 for "@ + old(self).sortinname@,
                MessColor::Red,
            ),
            (scan.phase == ScanPhase::GroupEnded || (scan.phase == ScanPhase::EndOfInput
                && scan.linenum >= 1)) ==> final(self)@ == with_group(
                old(self)@,
                scan.linenum,
                views(scan.list@),
                scan.refname@,
            ),
    {
        match scan.phase {
            ScanPhase::BadHeader => {
                self.msg_value = concat2("first line of sorted input file is not valid: ", scan.bad_line.as_str());
                self.mess_color = MessColor::Red;
            },
            ScanPhase::ReadFailed => {
                self.read_failed(scan.read_error.as_str());
            },
            ScanPhase::EndOfInput if scan.linenum < 1 => {
                self.input_empty();
            },
            _ => {
                self.take_group(scan);
            },
        }
    }

    /// The next group of the sorted input, after the current one, was read
    /// by `scan`: it becomes the current group; when none is left the
    /// message says so.
    pub fn apply_next(&mut self, scan: GroupScan)
        requires
            scan.wf(),
            scan.skip == old(self).listindex,
            !scan.check_header,
            scan.phase != ScanPhase::Reading,
        ensures
            scan.phase == ScanPhase::ReadFailed ==> final(self)@ == with_message(
                old(self)@,
                "error of "@ + scan.read_error@ + " reading "@ + old(self).sortinname@,
                MessColor::Red,
            ),
            scan.phase == ScanPhase::EndOfInput && scan.linenum < 1 ==> final(self)@ == with_message(
                old(self)@,
                "error bytes_read == 0 for "@ + old(self).sortinname@,
                MessColor::Red,
            ),
            scan.phase == ScanPhase::EndOfInput && scan.linenum >= 1 && scan.list@.len() == 0
                ==> final(self)@ == with_message(
                old(self)@,
                "end of sorted input file and no more files"@,
                MessColor::Green,
            ),
            scan.phase == ScanPhase::GroupEnded && scan.list@.len() == 0 ==> final(self)@
                == with_message(
                old(self)@,
                "error no files in list for "@ + scan.refname@,
                MessColor::Red,
            ),
            (scan.phase == ScanPhase::GroupEnded || (scan.phase == ScanPhase::EndOfInput
                && scan.linenum >= 1)) && scan.list@.len() > 0 ==> final(self)@ == with_group(
                old(self)@,
                scan.linenum,
                views(scan.list@),
                scan.refname@,
            ),
    {
        match scan.phase {
            ScanPhase::ReadFailed => {
                self.read_failed(scan.read_error.as_str());
            },
            ScanPhase::EndOfInput if scan.linenum < 1 => {
                self.input_empty();
            },
            _ => {
                if scan.list.len() < 1 {
                    if scan.phase == ScanPhase::EndOfInput {
                        self.msg_value = String::from_str("end of sorted input file and no more files");
                        self.mess_color = MessColor::Green;
                    } else {
                        self.msg_value = concat2("error no files in list for ", scan.refname.as_str());
                        self.mess_color = MessColor::Red;
                    }
                } else {
                    self.take_group(scan);
                }
            },
        }
    }

    fn read_failed(&mut self, error: &str)
        ensures
            final(self)@ == with_message(
                old(self)@,
                "error of "@ + error@ + " reading "@ + old(self).sortinname@,
                MessColor::Red,
            ),
    {
        let head = concat3("error of ", error, " reading ");
        self.msg_value = concat2(head.as_str(), self.sortinname.as_str());
        self.mess_color = MessColor::Red;
    }

    fn input_empty(&mut self)
        ensures
            final(self)@ == with_message(
                old(self)@,
                "error bytes_read == 0 for "@ + old(self).sortinname@,
                MessColor::Red,
            ),
    {
        self.msg_value = concat2("error bytes_read == 0 for ", self.sortinname.as_str());
        self.mess_color = MessColor::Red;
    }

    fn take_group(&mut self, scan: GroupScan)
        ensures
            final(self)@ == with_group(old(self)@, scan.linenum, views(scan.list@), scan.refname@),
    {
        self.mess_color = MessColor::Green;
        self.listindex = scan.linenum;
        self.listrefname = scan.list;
        self.bkrefname = scan.refname;
        self.msg_value = self.mount_message_now();
        assert(self@ =~= with_group(old(self)@, scan.linenum, views(self.listrefname@), self.bkrefname@));
    }

    /// The copy was asked for; the checks of `execpress` run on whether
    /// the sorted input, the disc path and the target directory exist and on
    /// the current group. Returns whether the copy may start.
    pub fn apply_exec_check(&mut self, sortin_exists: bool, bkdir_exists: bool, targetdir_exists: bool) -> (go: bool)
        ensures
            ({
                let code = execpress_code(sortin_exists, bkdir_exists, targetdir_exists, old(self).listrefname@.len());
                &&& go == (code == 0)
                &&& final(self)@ == with_message(
                    old(self)@,
                    execpress_message(code),
                    if code == 0 { MessColor::Green } else { MessColor::Red },
                )
            }),
    {
        let (code, msg) = execpress(sortin_exists, bkdir_exists, targetdir_exists, &self.listrefname);
        self.msg_value = msg;
        if code == 0 {
            self.mess_color = MessColor::Green;
        } else {
            self.mess_color = MessColor::Red;
        }
        code == 0
    }

    /// A copy run ended with `errcd` and `errval`; when `errcd` is 0 the
    /// drives were ejected, `ejects` holding what became of each.
    pub fn apply_copy_result(&mut self, errcd: u32, errval: String, ejects: &Vec<EjectReport>)
        ensures
            errcd != 0 ==> final(self)@ == with_message(old(self)@, errval@, MessColor::Red),
            errcd == 0 ==> final(self)@ == with_message(
                old(self)@,
                if eject_opened(ejects@) < 1 {
                    "no dvd drives found"@
                } else {
                    eject_message(ejects@, errval@)
                },
                if any_ejected(ejects@) { MessColor::Green } else { MessColor::Red },
            ),
    {
        self.msg_value = errval;
        self.mess_color = MessColor::Red;
        if errcd == 0 {
            let ghost start = self.msg_value@;
            let ghost v0 = self@;
            let mut n: usize = 0;
            let mut i: usize = 0;
            assert(ejects@.take(0) =~= Seq::<EjectReport>::empty());
            while i < ejects.len()
                invariant
                    i <= ejects@.len(),
                    n <= i,
                    n == eject_opened(ejects@.take(i as int)),
                    self.msg_value@ == eject_message(ejects@.take(i as int), start),
                    (self.mess_color == MessColor::Green) == any_ejected(ejects@.take(i as int)),
                    self.mess_color == MessColor::Green || self.mess_color == MessColor::Red,
                    self@ == with_message(v0, self.msg_value@, self.mess_color),
                decreases ejects@.len() - i,
            {
                assert(ejects@.take(i + 1).drop_last() =~= ejects@.take(i as int));
                assert(ejects@.take(i + 1).last() == ejects@[i as int]);
                match &ejects[i] {
                    EjectReport::OpenFailed(e) => {
                        self.msg_value = concat3("error ", e.as_str(), " in opening blu ray");
                    },
                    EjectReport::Ejected => {
                        n = n + 1;
                        self.mess_color = MessColor::Green;
                    },
                    EjectReport::EjectFailed(e) => {
                        n = n + 1;
                        self.msg_value = concat3("error ", e.as_str(), " in ejecting blu ray");
                    },
                }
                i += 1;
            }
            assert(ejects@.take(ejects@.len() as int) =~= ejects@);
            if n < 1 {
                self.msg_value = String::from_str("no dvd drives found");
            }
        }
    }

    /// A copy run reported an error.
    pub fn apply_copy_error(&mut self)
        ensures
            final(self)@ == with_message(old(self)@, "error in copyx copyit routine"@, MessColor::Red),
    {
        self.msg_value = String::from_str("error in copyx copyit routine");
        self.mess_color = MessColor::Red;
    }

    /// Progress display was asked for.
    pub fn start_progress(&mut self)
        ensures
            final(self)@ == (RestoreView { do_progress: true, ..old(self)@ }),
    {
        self.do_progress = true;
    }

    /// The progress timer reported an error.
    pub fn apply_progress_error(&mut self)
        ensures
            final(self)@ == with_message(old(self)@, "error in Progstart::pstart routine"@, MessColor::Red),
    {
        self.msg_value = String::from_str("error in Progstart::pstart routine");
        self.mess_color = MessColor::Red;
    }

    /// Shows a progress text in the progress colour.
    pub fn show_progress(&mut self, text: String)
        ensures
            final(self)@ == with_message(old(self)@, text@, MessColor::Blue),
    {
        self.msg_value = text;
        self.mess_color = MessColor::Blue;
    }
}

/// The last message shown while handling one drive.
fn drive_message_of(d: &DriveReport) -> (m: String)
    ensures
        m@ == drive_message(*d),
{
    match d {
        DriveReport::OpenFailed(e) => concat3("error ", e.as_str(), " in retracting dvd"),
        DriveReport::StatusFailed(e) => concat3("error ", e.as_str(), " in status dvd"),
        DriveReport::Empty => String::from_str("The tray is closed and no disc is inside"),
        DriveReport::TrayOpen => String::from_str("The tray is open"),
        DriveReport::NotReady => String::from_str("This drive is not ready yet"),
        DriveReport::Loaded { device, mounts, read_error } => match read_error {
            Some(e) => concat3("error in read proc ", e.as_str(), " "),
            None => String::from_str("There's a disc inside"),
        },
    }
}

/// Taking the next group moves on to the group of the listing that starts
/// right after the current one: the new current group is the run of
/// records from line `listindex` that share the first one's disc name, and
/// the new `listindex` is where that run ends, whatever follows in the file.
pub proof fn lemma_next_group_follows(v: RestoreView, scan: GroupScan, file: Seq<Seq<char>>)
    requires
        scan.wf(),
        scan.skip == v.listindex,
        v.listindex < file.len(),
        scan.phase == ScanPhase::GroupEnded || scan.phase == ScanPhase::EndOfInput,
        scan.phase == ScanPhase::GroupEnded ==> scan.lines@.len() <= file.len()
            && file.subrange(0, scan.lines@.len() as int) == scan.lines@,
        scan.phase == ScanPhase::EndOfInput ==> scan.lines@ == file,
    ensures
        ({
            let w = with_group(v, scan.linenum, views(scan.list@), scan.refname@);
            &&& w.listindex == group_end(file, v.listindex as int)
            &&& w.listrefname == file.subrange(v.listindex as int, w.listindex as int)
            &&& w.bkrefname == key_of(file[v.listindex as int])
            &&& v.listindex < w.listindex
        }),
{
    lemma_scan_takes_group(scan, file);
    lemma_group_tiles(file, v.listindex as int);
}

/// A group taken from the top of the listing (`First`, checked first
/// record) or after the current group (`Next`) is the listing's next
/// group in order: when the scan starts at the bound of group `k`, the
/// state it leads to shows group `k` and stands at the bound of group
/// `k + 1`.
pub proof fn lemma_group_step(v: RestoreView, scan: GroupScan, file: Seq<Seq<char>>, k: nat)
    requires
        scan.wf(),
        scan.skip == group_bound(file, k),
        group_bound(file, k) < file.len(),
        scan.phase == ScanPhase::GroupEnded || scan.phase == ScanPhase::EndOfInput,
        scan.phase == ScanPhase::GroupEnded ==> scan.lines@.len() <= file.len()
            && file.subrange(0, scan.lines@.len() as int) == scan.lines@,
        scan.phase == ScanPhase::EndOfInput ==> scan.lines@ == file,
    ensures
        ({
            let w = with_group(v, scan.linenum, views(scan.list@), scan.refname@);
            &&& w.listindex == group_bound(file, k + 1)
            &&& w.listrefname == block(file, k)
            &&& w.listrefname.len() > 0
        }),
{
    lemma_scan_takes_group(scan, file);
    lemma_groups_in_order(file, k);
}

/// The disc groups a session shows, put together in order.
pub open spec fn shown_records(shown: Seq<RestoreView>) -> Seq<Seq<char>>
    decreases shown.len(),
{
    if shown.len() == 0 {
        Seq::<Seq<char>>::empty()
    } else {
        shown_records(shown.drop_last()) + shown.last().listrefname
    }
}

/// A session that loads the listing and then takes group after group
/// (each state shown being the one `lemma_group_step` gives for the next
/// group) shows the listing in order: the groups shown, put together, are
/// exactly the lines up to the current `listindex`, with none skipped or
/// repeated; `listindex` never falls and never passes the end of the
/// listing; and each group's disc name differs from the one shown before.
pub proof fn lemma_session_in_order(file: Seq<Seq<char>>, shown: Seq<RestoreView>)
    requires
        forall|i: int| 0 <= i < shown.len() ==> {
            &&& (#[trigger] shown[i]).listindex == group_bound(file, (i + 1) as nat)
            &&& shown[i].listrefname == block(file, i as nat)
        },
    ensures
        shown_records(shown) == file.subrange(0, group_bound(file, shown.len())),
        shown.len() > 0 ==> shown_records(shown) == file.subrange(0, shown.last().listindex as int),
        forall|i: int, j: int| 0 <= i <= j < shown.len() ==> (#[trigger] shown[i]).listindex
            <= (#[trigger] shown[j]).listindex <= file.len(),
        forall|i: int, j: int| 0 <= i && j == i + 1 && j < shown.len() && 0 < (#[trigger] shown[j]).listrefname.len()
            ==> key_of(shown[j].listrefname[0]) != key_of((#[trigger] shown[i]).listrefname[0]),
{
    lemma_session_records(file, shown);
    if shown.len() > 0 {
        assert(shown[shown.len() - 1] == shown.last());
    }
    lemma_session_indices(file, shown);
    lemma_session_keys(file, shown);
}

proof fn lemma_session_indices(file: Seq<Seq<char>>, shown: Seq<RestoreView>)
    requires
        forall|i: int| 0 <= i < shown.len() ==> (#[trigger] shown[i]).listindex == group_bound(
            file,
            (i + 1) as nat,
        ),
    ensures
        forall|i: int, j: int| 0 <= i <= j < shown.len() ==> (#[trigger] shown[i]).listindex
            <= (#[trigger] shown[j]).listindex <= file.len(),
{
    assert forall|i: int, j: int| 0 <= i <= j < shown.len() implies (#[trigger] shown[i]).listindex
        <= (#[trigger] shown[j]).listindex <= file.len() by {
        lemma_bounds_grow(file, (i + 1) as nat, (j + 1) as nat);
        lemma_bound_within(file, (j + 1) as nat);
    }
}

proof fn lemma_session_keys(file: Seq<Seq<char>>, shown: Seq<RestoreView>)
    requires
        forall|i: int| 0 <= i < shown.len() ==> (#[trigger] shown[i]).listrefname == block(
            file,
            i as nat,
        ),
    ensures
        forall|i: int, j: int| 0 <= i && j == i + 1 && j < shown.len() && 0 < (#[trigger] shown[j]).listrefname.len()
            ==> key_of(shown[j].listrefname[0]) != key_of((#[trigger] shown[i]).listrefname[0]),
{
    assert forall|i: int, j: int| 0 <= i && j == i + 1 && j < shown.len() && 0 < (#[trigger] shown[j]).listrefname.len()
        implies key_of(shown[j].listrefname[0]) != key_of((#[trigger] shown[i]).listrefname[0]) by {
        lemma_next_key_differs(file, j as nat);
        assert(i == (j - 1) as nat);
    }
}

/// The groups a session shows, put together, are the listing's lines up to
/// the bound of the last group shown.
proof fn lemma_session_records(file: Seq<Seq<char>>, shown: Seq<RestoreView>)
    requires
        forall|i: int| 0 <= i < shown.len() ==> {
            &&& (#[trigger] shown[i]).listindex == group_bound(file, (i + 1) as nat)
            &&& shown[i].listrefname == block(file, i as nat)
        },
    ensures
        shown_records(shown) == file.subrange(0, group_bound(file, shown.len())),
    decreases shown.len(),
{
    if shown.len() > 0 {
        let n = shown.len();
        let init = shown.drop_last();
        assert forall|i: int| 0 <= i < init.len() implies {
            &&& (#[trigger] init[i]).listindex == group_bound(file, (i + 1) as nat)
            &&& init[i].listrefname == block(file, i as nat)
        } by {
            assert(init[i] == shown[i]);
        }
        lemma_session_records(file, init);
        assert(shown[n - 1] == shown.last());
        lemma_groups_in_order(file, (n - 1) as nat);
        let a = group_bound(file, (n - 1) as nat);
        let b = group_bound(file, n);
        assert(file.subrange(0, a) + file.subrange(a, b) =~= file.subrange(0, b));
    }
}

/// A group bound is within the listing.
proof fn lemma_bound_within(file: Seq<Seq<char>>, k: nat)
    ensures
        0 <= group_bound(file, k) <= file.len(),
{
    lemma_groups_in_order(file, k);
}

/// A group that is not empty starts with a disc name other than the first
/// record of the group before it.
proof fn lemma_next_key_differs(file: Seq<Seq<char>>, i: nat)
    requires
        i >= 1,
        block(file, i).len() > 0,
    ensures
        block(file, (i - 1) as nat).len() > 0,
        key_of(block(file, i)[0]) != key_of(block(file, (i - 1) as nat)[0]),
{
    let j = (i - 1) as nat;
    lemma_groups_in_order(file, i);
    lemma_groups_in_order(file, j);
    assert(i == j + 1);
    let p = group_bound(file, j);
    let q = group_bound(file, i);
    assert(block(file, i)[0] == file[q]);
    assert(block(file, j)[0] == file[p]);
}

/// The group bounds never fall.
pub proof fn lemma_bounds_grow(file: Seq<Seq<char>>, i: nat, j: nat)
    requires
        i <= j,
    ensures
        group_bound(file, i) <= group_bound(file, j),
    decreases j - i,
{
    if i < j {
        lemma_bounds_grow(file, i, (j - 1) as nat);
        lemma_groups_in_order(file, (j - 1) as nat);
    }
}

/// Every message `Progress|a|b|c`, with `a`, `b` and `c` free of `|`, is
/// read as a progress message with those three fields, whatever they are
/// (the done and total counts may be equal, as when a run ends).
pub proof fn lemma_progress_read(a: Seq<char>, b: Seq<char>, c: Seq<char>)
    requires
        !a.contains('|'),
        !b.contains('|'),
        !c.contains('|'),
    ensures
        progress_fields_of("Progress"@ + seq!['|'] + a + seq!['|'] + b + seq!['|'] + c) == Some((a, b, c)),
{
    let tag = "Progress"@;
    reveal_strlit("Progress");
    assert(!tag.contains('|'));
    let s3 = b.push('|') + c;
    let s2 = a.push('|') + s3;
    let s1 = tag.push('|') + s2;
    assert(tag + seq!['|'] + a + seq!['|'] + b + seq!['|'] + c =~= s1);
    lemma_split_concat(b, c, '|');
    lemma_split_concat(a, s3, '|');
    lemma_split_concat(tag, s2, '|');
    lemma_split_plain(tag, '|');
    lemma_split_plain(a, '|');
    lemma_split_plain(b, '|');
    lemma_split_plain(c, '|');
    assert(split_on(s1, '|') =~= seq![tag, a, b, c]);
}

} // verus!
