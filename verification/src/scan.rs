//! Reading one group out of the sorted input listing.
//!
//! The listing holds one record per line, fields separated by `|`; the
//! first field names the backup disc the file lives on. The lines of one
//! disc stand together. A scan is fed the lines one at a time, in file
//! order; it skips the lines before its start, takes the line at its start
//! and every following line with the same disc name, and stops at the
//! first line naming another disc.

use vstd::prelude::*;
use crate::text::{
    count_char, count_char_in, lemma_split_concat, lemma_split_first, lemma_split_nonempty,
    lemma_split_plain, split_on, split_str, views,
};

verus! {

/// The disc name of a record: its text before the first `|`.
pub open spec fn key_of(line: Seq<char>) -> Seq<char> {
    split_on(line, '|')[0]
}

/// A first record must have at least seven `|` separators.
pub open spec fn header_ok(line: Seq<char>) -> bool {
    count_char(line, '|') >= 7
}

/// The disc name held before any record has been taken.
pub open spec fn no_ref() -> Seq<char> {
    "---"@
}

/// Every line in `from..to` carries the disc name `key`.
pub open spec fn all_keyed(lines: Seq<Seq<char>>, from: int, to: int, key: Seq<char>) -> bool {
    forall|i: int| from <= i < to ==> key_of(#[trigger] lines[i]) == key
}

/// The index of the first line at or after `i` that does not carry `key`,
/// or the number of lines when there is none.
pub open spec fn run_end(lines: Seq<Seq<char>>, key: Seq<char>, i: int) -> int
    decreases lines.len() - i,
{
    if 0 <= i < lines.len() && key_of(lines[i]) == key {
        run_end(lines, key, i + 1)
    } else {
        i
    }
}

/// The end (exclusive) of the group that starts at line `start`.
pub open spec fn group_end(lines: Seq<Seq<char>>, start: int) -> int {
    run_end(lines, key_of(lines[start]), start)
}

/// Where a scan stands.
#[derive(PartialEq, Eq, Structural, Clone, Copy, Debug)]
pub enum ScanPhase {
    /// More lines are wanted.
    Reading,
    /// The first record of the group has fewer than seven separators.
    BadHeader,
    /// A line naming another disc ended the group.
    GroupEnded,
    /// The input ended.
    EndOfInput,
    /// Reading the input failed.
    ReadFailed,
}

/// A scan for one group of the listing.
pub struct GroupScan {
    /// How many lines precede the group.
    pub skip: u64,
    /// Whether the group's first record must pass `header_ok`.
    pub check_header: bool,
    /// Lines counted: those skipped and those taken, and the rejected
    /// first record; not a line that ends the group.
    pub linenum: u64,
    /// The group's disc name, `---` until a record is taken.
    pub refname: String,
    /// The records taken, each as it was read.
    pub list: Vec<String>,
    pub phase: ScanPhase,
    /// The rejected first record, when the phase is `BadHeader`.
    pub bad_line: String,
    /// The reader's error text, when the phase is `ReadFailed`.
    pub read_error: String,
    /// Every line fed so far.
    pub lines: Ghost<Seq<Seq<char>>>,
}

impl GroupScan {
    /// How the fields follow from the lines fed, in each phase.
    pub open spec fn wf(&self) -> bool {
        let ls = self.lines@;
        let n = ls.len() as int;
        let k = self.skip as int;
        let list = views(self.list@);
        match self.phase {
            ScanPhase::BadHeader => {
                &&& self.check_header
                &&& n == k + 1
                &&& self.linenum == n
                &&& !header_ok(ls[k])
                &&& self.bad_line@ == ls[k]
                &&& list == Seq::<Seq<char>>::empty()
                &&& self.refname@ == no_ref()
            },
            ScanPhase::GroupEnded => {
                &&& n >= k + 2
                &&& self.linenum == n - 1
                &&& (self.check_header ==> header_ok(ls[k]))
                &&& self.refname@ == key_of(ls[k])
                &&& list == ls.subrange(k, n - 1)
                &&& all_keyed(ls, k, n - 1, self.refname@)
                &&& key_of(ls[n - 1]) != self.refname@
            },
            _ => {
                &&& self.linenum == n
                &&& if n <= k {
                    &&& list == Seq::<Seq<char>>::empty()
                    &&& self.refname@ == no_ref()
                } else {
                    &&& (self.check_header ==> header_ok(ls[k]))
                    &&& self.refname@ == key_of(ls[k])
                    &&& list == ls.subrange(k, n)
                    &&& all_keyed(ls, k, n, self.refname@)
                }
            },
        }
    }

    /// A scan for the group that starts after `skip` lines; with
    /// `check_header`, its first record must have seven separators.
    pub fn new(skip: u64, check_header: bool) -> (s: GroupScan)
        ensures
            s.wf(),
            s.skip == skip,
            s.check_header == check_header,
            s.phase == ScanPhase::Reading,
            s.lines@ == Seq::<Seq<char>>::empty(),
    {
        let s = GroupScan {
            skip,
            check_header,
            linenum: 0,
            refname: String::from_str("---"),
            list: Vec::new(),
            phase: ScanPhase::Reading,
            bad_line: String::new(),
            read_error: String::new(),
            lines: Ghost(Seq::empty()),
        };
        assert(views(s.list@) =~= Seq::<Seq<char>>::empty());
        s
    }

    /// Feeds the next line of the input, as read (with its line end).
    /// Returns whether the scan wants another line.
    pub fn feed(&mut self, line: String) -> (more: bool)
        requires
            old(self).wf(),
            old(self).phase == ScanPhase::Reading,
            old(self).lines@.len() < u64::MAX,
        ensures
            final(self).wf(),
            final(self).lines@ == old(self).lines@.push(line@),
            final(self).skip == old(self).skip,
            final(self).check_header == old(self).check_header,
            more == (final(self).phase == ScanPhase::Reading),
            (final(self).phase == ScanPhase::BadHeader) == (old(self).lines@.len()
                == old(self).skip && old(self).check_header && !header_ok(line@)),
            (final(self).phase == ScanPhase::GroupEnded) == (old(self).lines@.len()
                > old(self).skip && key_of(line@) != old(self).refname@),
            final(self).phase == ScanPhase::Reading || final(self).phase == ScanPhase::BadHeader
                || final(self).phase == ScanPhase::GroupEnded,
    {
        let ghost old_lines = self.lines@;
        let ghost old_list = views(self.list@);
        proof {
            self.lines@ = self.lines@.push(line@);
        }
        let ghost ls = self.lines@;
        let ghost k = self.skip as int;
        assert(ls.subrange(0, old_lines.len() as int) == old_lines);
        if self.linenum < self.skip {
            self.linenum = self.linenum + 1;
            true
        } else if self.linenum == self.skip {
            if self.check_header && count_char_in(line.as_str(), '|') < 7 {
                self.linenum = self.linenum + 1;
                self.bad_line = line;
                self.phase = ScanPhase::BadHeader;
                false
            } else {
                let key = first_field(line.as_str());
                self.refname = key;
                self.list.push(line);
                self.linenum = self.linenum + 1;
                assert(views(self.list@) =~= old_list.push(line@));
                assert(ls.subrange(k, ls.len() as int) =~= seq![line@]);
                true
            }
        } else {
            let key = first_field(line.as_str());
            if key == self.refname {
                self.list.push(line);
                self.linenum = self.linenum + 1;
                assert(views(self.list@) =~= old_list.push(line@));
                assert(ls.subrange(k, ls.len() as int) =~= old_lines.subrange(k, old_lines.len() as int).push(line@));
                assert forall|i: int| k <= i < ls.len() implies key_of(#[trigger] ls[i])
                    == self.refname@ by {
                    if i < old_lines.len() {
                        assert(ls[i] == old_lines[i]);
                    }
                }
                true
            } else {
                self.phase = ScanPhase::GroupEnded;
                assert(ls.subrange(k, ls.len() - 1) =~= old_lines.subrange(k, old_lines.len() as int));
                assert forall|i: int| k <= i < ls.len() - 1 implies key_of(#[trigger] ls[i])
                    == self.refname@ by {
                    assert(ls[i] == old_lines[i]);
                }
                false
            }
        }
    }

    /// Records that the input ended.
    pub fn finish_eof(&mut self)
        requires
            old(self).wf(),
            old(self).phase == ScanPhase::Reading,
        ensures
            final(self).wf(),
            final(self).phase == ScanPhase::EndOfInput,
            final(self).lines@ == old(self).lines@,
            final(self).skip == old(self).skip,
            final(self).check_header == old(self).check_header,
            final(self).linenum == old(self).linenum,
            final(self).refname == old(self).refname,
            final(self).list == old(self).list,
    {
        self.phase = ScanPhase::EndOfInput;
    }

    /// Records that reading the input failed, with the error's text.
    pub fn finish_error(&mut self, error: String)
        requires
            old(self).wf(),
            old(self).phase == ScanPhase::Reading,
        ensures
            final(self).wf(),
            final(self).phase == ScanPhase::ReadFailed,
            final(self).read_error@ == error@,
            final(self).lines@ == old(self).lines@,
            final(self).skip == old(self).skip,
            final(self).check_header == old(self).check_header,
            final(self).linenum == old(self).linenum,
            final(self).refname == old(self).refname,
            final(self).list == old(self).list,
    {
        self.read_error = error;
        self.phase = ScanPhase::ReadFailed;
    }
}

/// The disc name of a record.
pub fn first_field(line: &str) -> (key: String)
    ensures
        key@ == key_of(line@),
{
    proof {
        lemma_split_nonempty(line@, '|');
    }
    let mut pieces = split_str(line, '|');
    assert(pieces@[0]@ == views(pieces@)[0]);
    pieces.swap_remove(0)
}

/// Where a run of lines with the same disc name ends.
pub proof fn lemma_run_end(lines: Seq<Seq<char>>, key: Seq<char>, i: int, e: int)
    requires
        0 <= i <= e <= lines.len(),
        all_keyed(lines, i, e, key),
        e == lines.len() || key_of(lines[e]) != key,
    ensures
        run_end(lines, key, i) == e,
    decreases e - i,
{
    if i < e {
        lemma_run_end(lines, key, i + 1, e);
    }
}

/// A scan that has finished its group took exactly the group of the
/// listing that starts after its `skip` lines: the lines up to the first
/// one naming another disc. What the listing holds after the line that
/// ended the group does not matter; a scan that reached the end of the
/// input saw the whole listing.
pub proof fn lemma_scan_takes_group(scan: GroupScan, file: Seq<Seq<char>>)
    requires
        scan.wf(),
        scan.skip < file.len(),
        scan.phase == ScanPhase::GroupEnded || scan.phase == ScanPhase::EndOfInput,
        scan.phase == ScanPhase::GroupEnded ==> scan.lines@.len() <= file.len()
            && file.subrange(0, scan.lines@.len() as int) == scan.lines@,
        scan.phase == ScanPhase::EndOfInput ==> scan.lines@ == file,
    ensures
        scan.linenum == group_end(file, scan.skip as int),
        views(scan.list@) == file.subrange(scan.skip as int, scan.linenum as int),
        scan.refname@ == key_of(file[scan.skip as int]),
{
    let ls = scan.lines@;
    let k = scan.skip as int;
    let e = scan.linenum as int;
    assert(ls[k] == file.subrange(0, ls.len() as int)[k]);
    assert forall|i: int| k <= i < e implies key_of(#[trigger] file[i]) == scan.refname@ by {
        assert(ls[i] == file.subrange(0, ls.len() as int)[i]);
    }
    if scan.phase == ScanPhase::GroupEnded {
        assert(ls[e] == file.subrange(0, ls.len() as int)[e]);
    }
    lemma_run_end(file, scan.refname@, k, e);
    assert forall|i: int| 0 <= i < e - k implies views(scan.list@)[i] == #[trigger] file.subrange(k, e)[i] by {
        assert(ls[k + i] == file.subrange(0, ls.len() as int)[k + i]);
    }
    assert(views(scan.list@) =~= file.subrange(k, e));
}

/// The groups tile the listing: the group that starts at a line ends after
/// it, no later than the end of the listing; every line in it carries the
/// first line's disc name; the line that ends it carries another. So the
/// next group starts right where this one ends.
pub proof fn lemma_group_tiles(lines: Seq<Seq<char>>, start: int)
    requires
        0 <= start < lines.len(),
    ensures
        start < group_end(lines, start) <= lines.len(),
        all_keyed(lines, start, group_end(lines, start), key_of(lines[start])),
        group_end(lines, start) < lines.len() ==> key_of(lines[group_end(lines, start)]) != key_of(
            lines[start],
        ),
{
    lemma_run_end_facts(lines, key_of(lines[start]), start);
}

/// What `run_end` gives: an index no lower than `i`, within the lines,
/// with all lines between carrying `key` and the line there not.
pub proof fn lemma_run_end_facts(lines: Seq<Seq<char>>, key: Seq<char>, i: int)
    requires
        0 <= i <= lines.len(),
    ensures
        i <= run_end(lines, key, i) <= lines.len(),
        all_keyed(lines, i, run_end(lines, key, i), key),
        run_end(lines, key, i) < lines.len() ==> key_of(lines[run_end(lines, key, i)]) != key,
    decreases lines.len() - i,
{
    if i < lines.len() && key_of(lines[i]) == key {
        lemma_run_end_facts(lines, key, i + 1);
    }
}

/// Where the `k`-th group of the listing begins, counting from the top: 0
/// for the first, and each next one where the one before ends; once the
/// listing is used up it stays at its end.
pub open spec fn group_bound(lines: Seq<Seq<char>>, k: nat) -> int
    decreases k,
{
    if k == 0 {
        0
    } else {
        let p = group_bound(lines, (k - 1) as nat);
        if 0 <= p < lines.len() {
            group_end(lines, p)
        } else {
            p
        }
    }
}

/// The records of the `k`-th group of the listing.
pub open spec fn block(lines: Seq<Seq<char>>, k: nat) -> Seq<Seq<char>> {
    lines.subrange(group_bound(lines, k), group_bound(lines, k + 1))
}

/// The records of the first `k` groups, one after the other.
pub open spec fn blocks_upto(lines: Seq<Seq<char>>, k: nat) -> Seq<Seq<char>>
    decreases k,
{
    if k == 0 {
        Seq::<Seq<char>>::empty()
    } else {
        blocks_upto(lines, (k - 1) as nat) + block(lines, (k - 1) as nat)
    }
}

/// Taking the groups of a listing one after another from the top: the
/// first `k` groups, put together in order, are exactly the listing's first
/// `group_bound(k)` lines, so no line is skipped or taken twice; the bound
/// never falls and never passes the end; while lines are left each group
/// takes at least one, so after as many groups as there are lines the
/// listing is used up; every record of a group carries the disc name of
/// its first; and each new group's disc name differs from the one before.
pub proof fn lemma_groups_in_order(lines: Seq<Seq<char>>, k: nat)
    ensures
        0 <= group_bound(lines, k) <= group_bound(lines, k + 1) <= lines.len(),
        group_bound(lines, k) < lines.len() ==> group_bound(lines, k) < group_bound(lines, k + 1),
        group_bound(lines, k) >= k || group_bound(lines, k) == lines.len(),
        k >= lines.len() ==> group_bound(lines, k) == lines.len(),
        blocks_upto(lines, k) == lines.subrange(0, group_bound(lines, k)),
        group_bound(lines, k) < lines.len() ==> all_keyed(
            lines,
            group_bound(lines, k),
            group_bound(lines, k + 1),
            key_of(lines[group_bound(lines, k)]),
        ),
        k >= 1 && group_bound(lines, k) < lines.len() ==> key_of(lines[group_bound(lines, k)])
            != key_of(lines[group_bound(lines, (k - 1) as nat)]),
    decreases k,
{
    let b = group_bound(lines, k);
    if k == 0 {
        assert(lines.subrange(0, 0) =~= Seq::<Seq<char>>::empty());
    } else {
        let j = (k - 1) as nat;
        lemma_groups_in_order(lines, j);
        let a = group_bound(lines, j);
        assert(b == group_bound(lines, (j + 1) as nat));
        if a < lines.len() {
            lemma_group_tiles(lines, a);
        }
        assert(blocks_upto(lines, k) == blocks_upto(lines, j) + block(lines, j));
        assert(lines.subrange(0, a) + lines.subrange(a, b) =~= lines.subrange(0, b));
    }
    if b < lines.len() {
        lemma_group_tiles(lines, b);
    }
    assert(group_bound(lines, k + 1) == (if 0 <= b < lines.len() { group_end(lines, b) } else { b }));
}

/// The disc name of a record is its whole text before the first `|`: it
/// holds no `|`, the record begins with it, and a `|` follows it unless it
/// is the whole record.
pub proof fn lemma_key_is_text_before_bar(line: Seq<char>)
    ensures
        !key_of(line).contains('|'),
        key_of(line).len() <= line.len(),
        line.subrange(0, key_of(line).len() as int) == key_of(line),
        key_of(line).len() < line.len() ==> line[key_of(line).len() as int] == '|',
        line.contains('|') ==> line.subrange(0, key_of(line).len() + 1int) == key_of(line).push('|'),
        !line.contains('|') ==> key_of(line) == line,
{
    lemma_split_first(line, '|');
    let k = key_of(line);
    if k.len() < line.len() {
        assert(line.subrange(0, k.len() + 1int) =~= line.subrange(0, k.len() as int).push('|'));
    } else {
        assert(line.subrange(0, line.len() as int) =~= line);
        if line.contains('|') {
            let i = choose|i: int| 0 <= i < line.len() && line[i] == '|';
            assert(k[i] == '|');
        }
    }
}

/// A record written as a disc name `name` (without `|`), a `|` and the
/// rest has exactly `name` as its disc name; so records whose text before
/// the first `|` differs have different disc names and never share a group.
pub proof fn lemma_key_of_record(name: Seq<char>, rest: Seq<char>)
    requires
        !name.contains('|'),
    ensures
        key_of(name.push('|') + rest) == name,
        key_of(name) == name,
{
    lemma_split_concat(name, rest, '|');
    lemma_split_plain(name, '|');
    lemma_split_nonempty(rest, '|');
}

} // verus!
