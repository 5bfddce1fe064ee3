//! Finding where the disc in the drive is mounted.

use vstd::prelude::*;
use crate::text::{
    chars_of, contains_seq, contains_str, lemma_split_nonempty, lemma_split_pieces_free, split_on, split_str,
    string_from_range, views,
};

verus! {

/// What became of one optical drive while looking for the disc.
pub enum DriveReport {
    /// The drive could not be opened; the error's text.
    OpenFailed(String),
    /// The drive's status could not be read; the error's text.
    StatusFailed(String),
    /// The tray is closed and holds no disc.
    Empty,
    /// The tray is open.
    TrayOpen,
    /// The drive is not ready yet.
    NotReady,
    /// A disc is in the drive. `device` is the drive's path as `{:?}` prints
    /// it (in quotes); `mounts` the lines of the mount table read, each as
    /// read; `read_error` the text of the error that ended the reading, if any.
    Loaded { device: String, mounts: Vec<String>, read_error: Option<String> },
}

/// The path text between the quotes that `{:?}` put round it.
pub open spec fn unquoted(s: Seq<char>) -> Seq<char> {
    s.subrange(1, s.len() - 1)
}

/// The quoted path text can be cut at its first and last characters.
pub open spec fn device_ok(s: Seq<char>) -> bool {
    &&& s.len() >= 2
    &&& (s[0] as u32) < 128
    &&& (s.last() as u32) < 128
}

/// A mount table line has at least a device and a mount point.
pub open spec fn mount_line_ok(line: Seq<char>) -> bool {
    split_on(line, ' ').len() >= 2
}

/// A mount table line's device field holds `/dev`; only then is the
/// drive's quoted path cut to compare with it.
pub open spec fn names_dev(line: Seq<char>) -> bool {
    contains_seq(split_on(line, ' ')[0], "/dev"@)
}

/// The mount table lines can be handled for a drive: each has two fields,
/// and where one names a `/dev` device the drive's path text can be cut.
pub open spec fn mounts_ok(lines: Seq<Seq<char>>, device: Seq<char>) -> bool {
    forall|i: int| 0 <= i < lines.len() ==> {
        &&& mount_line_ok(#[trigger] lines[i])
        &&& (names_dev(lines[i]) ==> device_ok(device))
    }
}

/// A report can be handled: its mount table lines can be, for a loaded drive.
pub open spec fn report_ok(d: DriveReport) -> bool {
    match d {
        DriveReport::Loaded { device, mounts, read_error } => mounts_ok(views(mounts@), device@),
        _ => true,
    }
}

/// A mount table line names a device under `/dev` whose name holds the
/// drive's path.
pub open spec fn mount_matches(line: Seq<char>, drive: Seq<char>) -> bool {
    let dev = split_on(line, ' ')[0];
    contains_seq(dev, "/dev"@) && contains_seq(dev, drive)
}

/// The mount point on a mount table line.
pub open spec fn mount_point(line: Seq<char>) -> Seq<char> {
    split_on(line, ' ')[1]
}

/// The mount point of the last line in `lines` that matches `drive`, or
/// `current` when none does.
pub open spec fn chosen_mount(lines: Seq<Seq<char>>, drive: Seq<char>, current: Seq<char>) -> Seq<char>
    decreases lines.len(),
{
    if lines.len() == 0 {
        current
    } else if mount_matches(lines.last(), drive) {
        mount_point(lines.last())
    } else {
        chosen_mount(lines.drop_last(), drive, current)
    }
}

/// The mount point known after one drive's report.
pub open spec fn mount_after(d: DriveReport, current: Seq<char>) -> Seq<char> {
    match d {
        DriveReport::Loaded { device, mounts, read_error } => chosen_mount(
            views(mounts@),
            unquoted(device@),
            current,
        ),
        _ => current,
    }
}

/// The mount point known after all the reports, starting from `current`.
pub open spec fn mount_after_all(ds: Seq<DriveReport>, current: Seq<char>) -> Seq<char>
    decreases ds.len(),
{
    if ds.len() == 0 {
        current
    } else {
        mount_after(ds.last(), mount_after_all(ds.drop_last(), current))
    }
}

/// How many drives could be opened.
pub open spec fn opened_count(ds: Seq<DriveReport>) -> nat
    decreases ds.len(),
{
    if ds.len() == 0 {
        0
    } else {
        opened_count(ds.drop_last()) + (if ds.last() is OpenFailed { 0nat } else { 1nat })
    }
}

/// The last message shown while handling one drive.
pub open spec fn drive_message(d: DriveReport) -> Seq<char> {
    match d {
        DriveReport::OpenFailed(e) => "error "@ + e@ + " in retracting dvd"@,
        DriveReport::StatusFailed(e) => "error "@ + e@ + " in status dvd"@,
        DriveReport::Empty => "The tray is closed and no disc is inside"@,
        DriveReport::TrayOpen => "The tray is open"@,
        DriveReport::NotReady => "This drive is not ready yet"@,
        DriveReport::Loaded { device, mounts, read_error } => match read_error {
            Some(e) => "error in read proc "@ + e@ + " "@,
            None => "There's a disc inside"@,
        },
    }
}

/// The last component of a mount point: the text after its last `/`.
pub open spec fn label_of(mount: Seq<char>) -> Seq<char> {
    split_on(mount, '/').last()
}

/// Whether a report can be handled.
#[verifier::loop_isolation(false)]
pub fn drive_report_ok(d: &DriveReport) -> (b: bool)
    ensures
        b == report_ok(*d),
{
    match d {
        DriveReport::Loaded { device, mounts, read_error } => {
            let cs = chars_of(device.as_str());
            let cut_ok = cs.len() >= 2 && (cs[0] as u32) < 128 && (cs[cs.len() - 1] as u32) < 128;
            assert(cut_ok == device_ok(device@));
            let mut i: usize = 0;
            while i < mounts.len()
                invariant
                    i <= mounts@.len(),
                    cut_ok == device_ok(device@),
                    forall|j: int| 0 <= j < i ==> {
                        &&& mount_line_ok(#[trigger] views(mounts@)[j])
                        &&& (names_dev(views(mounts@)[j]) ==> device_ok(device@))
                    },
                decreases mounts@.len() - i,
            {
                let pieces = split_str(mounts[i].as_str(), ' ');
                assert(views(mounts@)[i as int] == mounts@[i as int]@);
                assert(views(pieces@).len() == pieces@.len());
                if pieces.len() < 2 {
                    assert(!mount_line_ok(views(mounts@)[i as int]));
                    return false;
                }
                assert(pieces@[0]@ == views(pieces@)[0]);
                if contains_str(pieces[0].as_str(), "/dev") && !cut_ok {
                    assert(names_dev(views(mounts@)[i as int]));
                    return false;
                }
                i += 1;
            }
            true
        },
        _ => true,
    }
}

/// The mount point after reading one drive's mount table lines.
pub fn choose_mount(lines: &Vec<String>, device: &str, current: String) -> (m: String)
    requires
        mounts_ok(views(lines@), device@),
    ensures
        m@ == chosen_mount(views(lines@), unquoted(device@), current@),
{
    let mut m = current;
    let mut i: usize = 0;
    while i < lines.len()
        invariant
            i <= lines@.len(),
            mounts_ok(views(lines@), device@),
            m@ == chosen_mount(views(lines@).take(i as int), unquoted(device@), current@),
        decreases lines@.len() - i,
    {
        let line = lines[i].as_str();
        let fields = split_str(line, ' ');
        proof {
            lemma_split_nonempty(line@, ' ');
            assert(views(lines@)[i as int] == line@);
            assert(mount_line_ok(views(lines@)[i as int]));
        }
        assert(fields@[0]@ == views(fields@)[0]);
        assert(fields@[1]@ == views(fields@)[1]);
        let ghost before = views(lines@).take(i as int);
        assert(views(lines@).take(i + 1).drop_last() == before);
        assert(views(lines@).take(i + 1).last() == line@);
        if contains_str(fields[0].as_str(), "/dev") {
            let cs = chars_of(device);
            let drive = string_from_range(&cs, 1, cs.len() - 1);
            if contains_str(fields[0].as_str(), drive.as_str()) {
                m = fields[1].clone();
            }
        }
        i += 1;
    }
    assert(views(lines@).take(lines@.len() as int) == views(lines@));
    m
}

/// The last component of a mount point (`split("/")` and its last piece).
pub fn mount_label(mount: &str) -> (l: String)
    ensures
        l@ == label_of(mount@),
{
    proof {
        lemma_split_nonempty(mount@, '/');
    }
    let mut pieces = split_str(mount, '/');
    assert(pieces@.last()@ == views(pieces@).last());
    pieces.pop().unwrap()
}

/// A disc label holds no `/`.
pub proof fn lemma_label_has_no_slash(mount: Seq<char>)
    ensures
        !label_of(mount).contains('/'),
{
    lemma_split_nonempty(mount, '/');
    lemma_split_pieces_free(mount, '/', split_on(mount, '/').len() - 1);
}

/// No mount table line of a report matches its drive.
pub open spec fn no_match_in(d: DriveReport) -> bool {
    match d {
        DriveReport::Loaded { device, mounts, read_error } => forall|j: int|
            0 <= j < mounts@.len() ==> !mount_matches(#[trigger] mounts@[j]@, unquoted(device@)),
        _ => true,
    }
}

/// With no matching line the mount point stays as it was.
pub proof fn lemma_chosen_without_match(lines: Seq<Seq<char>>, drive: Seq<char>, current: Seq<char>)
    requires
        forall|j: int| 0 <= j < lines.len() ==> !mount_matches(#[trigger] lines[j], drive),
    ensures
        chosen_mount(lines, drive, current) == current,
    decreases lines.len(),
{
    if lines.len() > 0 {
        assert(!mount_matches(lines[lines.len() - 1], drive));
        lemma_chosen_without_match(lines.drop_last(), drive, current);
    }
}

/// The mount point is that of the last matching line.
pub proof fn lemma_chosen_last_match(
    lines: Seq<Seq<char>>,
    drive: Seq<char>,
    current: Seq<char>,
    j: int,
)
    requires
        0 <= j < lines.len(),
        mount_matches(lines[j], drive),
        forall|k: int| j < k < lines.len() ==> !mount_matches(#[trigger] lines[k], drive),
    ensures
        chosen_mount(lines, drive, current) == mount_point(lines[j]),
    decreases lines.len(),
{
    if j < lines.len() - 1 {
        assert(!mount_matches(lines[lines.len() - 1], drive));
        let t = lines.drop_last();
        assert forall|k: int| j < k < t.len() implies !mount_matches(#[trigger] t[k], drive) by {
            assert(t[k] == lines[k]);
        }
        lemma_chosen_last_match(t, drive, current, j);
    }
}

/// A search over the drives keeps the mount point it had when no loaded
/// drive's mount table has a matching line; drives that are empty, not
/// ready, open or failing leave it as it is.
pub proof fn lemma_mount_kept_without_match(ds: Seq<DriveReport>, current: Seq<char>)
    requires
        forall|i: int| 0 <= i < ds.len() ==> no_match_in(#[trigger] ds[i]),
    ensures
        mount_after_all(ds, current) == current,
    decreases ds.len(),
{
    if ds.len() > 0 {
        let t = ds.drop_last();
        assert forall|i: int| 0 <= i < t.len() implies no_match_in(#[trigger] t[i]) by {
            assert(t[i] == ds[i]);
        }
        lemma_mount_kept_without_match(t, current);
        assert(no_match_in(ds[ds.len() - 1]));
        match ds.last() {
            DriveReport::Loaded { device, mounts, read_error } => {
                assert forall|j: int| 0 <= j < views(mounts@).len() implies !mount_matches(
                    #[trigger] views(mounts@)[j],
                    unquoted(device@),
                ) by {
                    assert(views(mounts@)[j] == mounts@[j]@);
                }
                lemma_chosen_without_match(views(mounts@), unquoted(device@), current);
            },
            _ => {},
        }
    }
}

/// The mount point a search over the drives ends with is that of the last
/// matching mount table line: line `j` of drive `i`, when no later line of
/// that drive and no later drive matches.
pub proof fn lemma_mount_is_last_match(
    ds: Seq<DriveReport>,
    current: Seq<char>,
    i: int,
    device: String,
    mounts: Vec<String>,
    read_error: Option<String>,
    j: int,
)
    requires
        0 <= i < ds.len(),
        ds[i] == (DriveReport::Loaded { device, mounts, read_error }),
        0 <= j < mounts@.len(),
        mount_matches(mounts@[j]@, unquoted(device@)),
        forall|k: int| j < k < mounts@.len() ==> !mount_matches(#[trigger] mounts@[k]@, unquoted(device@)),
        forall|h: int| i < h < ds.len() ==> no_match_in(#[trigger] ds[h]),
    ensures
        mount_after_all(ds, current) == mount_point(mounts@[j]@),
    decreases ds.len(),
{
    let t = ds.drop_last();
    if i < ds.len() - 1 {
        assert forall|h: int| i < h < t.len() implies no_match_in(#[trigger] t[h]) by {
            assert(t[h] == ds[h]);
        }
        assert(t[i] == ds[i]);
        lemma_mount_is_last_match(t, current, i, device, mounts, read_error, j);
        let m = mount_after_all(t, current);
        assert(no_match_in(ds[ds.len() - 1]));
        match ds.last() {
            DriveReport::Loaded { device: dv, mounts: ms, read_error: re } => {
                assert forall|k: int| 0 <= k < views(ms@).len() implies !mount_matches(
                    #[trigger] views(ms@)[k],
                    unquoted(dv@),
                ) by {
                    assert(views(ms@)[k] == ms@[k]@);
                }
                lemma_chosen_without_match(views(ms@), unquoted(dv@), m);
            },
            _ => {},
        }
    } else {
        let ls = views(mounts@);
        assert(ls[j] == mounts@[j]@);
        assert forall|k: int| j < k < ls.len() implies !mount_matches(#[trigger] ls[k], unquoted(device@)) by {
            assert(ls[k] == mounts@[k]@);
        }
        lemma_chosen_last_match(ls, unquoted(device@), mount_after_all(t, current), j);
    }
}

} // verus!
