//! The decisions of a copy run: which file goes where, when to stop,
//! whether to start a copy in the background or wait for it, and what the
//! run reports.

use vstd::prelude::*;
use crate::text::{
    concat2, concat3, decimal, decimal_string, replace_char,
    replace_char_in, split_on, split_str, views,
};

verus! {

/// Field `k` of a record.
pub open spec fn field(entry: Seq<char>, k: int) -> Seq<char> {
    split_on(entry, '|')[k]
}

/// A record has the eight fields a copy reads.
pub open spec fn entry_ok(entry: Seq<char>) -> bool {
    split_on(entry, '|').len() >= 8
}

/// A directory field with `\` separators turned into `/`.
pub open spec fn slashed(dir: Seq<char>) -> Seq<char> {
    replace_char(dir, '\\', '/')
}

/// Where a record's file is on the disc: the disc path, the record's
/// disc directory (field 1) and its file name (field 2).
pub open spec fn copy_source(bkpath: Seq<char>, entry: Seq<char>) -> Seq<char> {
    bkpath + "/"@ + slashed(field(entry, 1)) + "/"@ + field(entry, 2)
}

/// Where a record's file goes: the target directory, the record's
/// original directory (field 7) and its file name (field 2).
pub open spec fn copy_target(targetdir: Seq<char>, entry: Seq<char>) -> Seq<char> {
    targetdir + "/"@ + slashed(field(entry, 7)) + "/"@ + field(entry, 2)
}

/// How a copy is started.
#[derive(PartialEq, Eq, Structural, Clone, Copy, Debug)]
pub enum CopyMode {
    /// In the background, without waiting.
    Spawn,
    /// In the foreground, waiting for it to end.
    Wait,
}

/// The copy mode after `running` background copies, and the count after it:
/// up to four copies run in the background, then one is waited for and the
/// count starts again.
pub open spec fn mode_for(running: u32) -> (CopyMode, u32) {
    if running < 4 {
        (CopyMode::Spawn, (running + 1) as u32)
    } else {
        (CopyMode::Wait, 0u32)
    }
}

/// The message when a file is missing from the disc.
pub open spec fn missing_message(source: Seq<char>) -> Seq<char> {
    "********* Copy: ERROR "@ + source + " does not exist **********"@
}

/// The message when a target file is already there.
pub open spec fn existing_message(target: Seq<char>) -> Seq<char> {
    "********* Copy: ERROR "@ + target + " already exists **********"@
}

/// Whether a record has the fields a copy reads.
pub fn entry_has_fields(entry: &str) -> (b: bool)
    ensures
        b == entry_ok(entry@),
{
    let pieces = split_str(entry, '|');
    assert(views(pieces@).len() == pieces@.len());
    pieces.len() >= 8
}

/// The source and target paths of a record.
pub fn copy_paths(bkpath: &str, targetdir: &str, entry: &str) -> (r: (String, String))
    requires
        entry_ok(entry@),
    ensures
        r.0@ == copy_source(bkpath@, entry@),
        r.1@ == copy_target(targetdir@, entry@),
{
    let fields = split_str(entry, '|');
    assert(fields@[1]@ == views(fields@)[1]);
    assert(fields@[2]@ == views(fields@)[2]);
    assert(fields@[7]@ == views(fields@)[7]);
    let bkdir = replace_char_in(fields[1].as_str(), '\\', '/');
    let rdir = replace_char_in(fields[7].as_str(), '\\', '/');
    let name = fields[2].as_str();
    let s1 = concat3(bkpath, "/", bkdir.as_str());
    let source = concat3(s1.as_str(), "/", name);
    let t1 = concat3(targetdir, "/", rdir.as_str());
    let target = concat3(t1.as_str(), "/", name);
    (source, target)
}

/// The copy mode and the new count of background copies.
pub fn copy_mode(running: u32) -> (r: (CopyMode, u32))
    ensures
        r == mode_for(running),
{
    if running < 4 {
        (CopyMode::Spawn, running + 1)
    } else {
        (CopyMode::Wait, 0)
    }
}

/// A copy run over the records of one disc.
pub struct CopyJob {
    pub bkpath: String,
    pub targetdir: String,
    pub entries: Vec<String>,
    /// Records handled so far, the failing one included.
    pub linenum: usize,
    /// Copies started in the background since the last waited one.
    pub numprocess: u32,
    /// The message of the check that stopped the run.
    pub failure: Option<String>,
}

impl CopyJob {
    /// The run's invariant: it stops at the record that failed.
    pub open spec fn wf(&self) -> bool {
        &&& self.linenum <= self.entries@.len()
        &&& self.numprocess <= 4
        &&& self.failure is Some ==> self.linenum >= 1
    }

    /// Whether the run has records left and has not stopped.
    pub open spec fn has_next(&self) -> bool {
        self.failure is None && self.linenum < self.entries@.len()
    }

    /// The record to handle next.
    pub open spec fn current(&self) -> Seq<char> {
        self.entries@[self.linenum as int]@
    }

    /// A run over `entries`, copying from `bkpath` into `targetdir`.
    pub fn new(bkpath: String, targetdir: String, entries: Vec<String>) -> (j: CopyJob)
        ensures
            j.wf(),
            j.bkpath == bkpath,
            j.targetdir == targetdir,
            j.entries == entries,
            j.linenum == 0,
            j.numprocess == 0,
            j.failure is None,
    {
        CopyJob { bkpath, targetdir, entries, linenum: 0, numprocess: 0, failure: None }
    }

    /// Whether the run goes on.
    pub fn more(&self) -> (b: bool)
        ensures
            b == self.has_next(),
    {
        self.failure.is_none() && self.linenum < self.entries.len()
    }

    /// Whether the next record has the fields a copy reads.
    pub fn current_ok(&self) -> (b: bool)
        requires
            self.has_next(),
        ensures
            b == entry_ok(self.current()),
    {
        entry_has_fields(self.entries[self.linenum].as_str())
    }

    /// The source and target of the next record.
    pub fn current_paths(&self) -> (r: (String, String))
        requires
            self.has_next(),
            entry_ok(self.current()),
        ensures
            r.0@ == copy_source(self.bkpath@, self.current()),
            r.1@ == copy_target(self.targetdir@, self.current()),
    {
        copy_paths(self.bkpath.as_str(), self.targetdir.as_str(), self.entries[self.linenum].as_str())
    }

    /// Handles the next record, given whether its source exists and whether
    /// its target exists: stops with a message when the source is missing
    /// or the target is there, else says how to start its copy.
    pub fn step(&mut self, source_exists: bool, target_exists: bool) -> (m: Option<CopyMode>)
        requires
            old(self).wf(),
            old(self).has_next(),
            entry_ok(old(self).current()),
        ensures
            final(self).wf(),
            final(self).bkpath == old(self).bkpath,
            final(self).targetdir == old(self).targetdir,
            final(self).entries == old(self).entries,
            final(self).linenum == old(self).linenum + 1,
            !source_exists ==> (m is None && final(self).numprocess == old(self).numprocess
                && (final(self).failure matches Some(f) && f@ == missing_message(
                copy_source(old(self).bkpath@, old(self).current()),
            ))),
            source_exists && target_exists ==> (m is None && final(self).numprocess
                == old(self).numprocess && (final(self).failure matches Some(f) && f@
                == existing_message(copy_target(old(self).targetdir@, old(self).current())))),
            source_exists && !target_exists ==> final(self).failure is None && m == Some(
                mode_for(old(self).numprocess).0,
            ) && final(self).numprocess == mode_for(old(self).numprocess).1,
    {
        let (source, target) = self.current_paths();
        let total = self.entries.len();
        assert(self.linenum < total);
        self.linenum = self.linenum + 1;
        if !source_exists {
            let msg = concat3("********* Copy: ERROR ", source.as_str(), " does not exist **********");
            self.failure = Some(msg);
            return None;
        }
        if target_exists {
            let msg = concat3("********* Copy: ERROR ", target.as_str(), " already exists **********");
            self.failure = Some(msg);
            return None;
        }
        let (mode, running) = copy_mode(self.numprocess);
        self.numprocess = running;
        Some(mode)
    }

    /// What the run reports when it is over: code 0 always, with the
    /// stopping message, or the count of records copied.
    pub fn outcome(&self) -> (r: (u32, String))
        ensures
            r.0 == 0,
            self.failure matches Some(f) ==> r.1@ == f@,
            self.failure is None ==> r.1@ == "Completed copying "@ + decimal(self.linenum as nat)
                + " of "@ + decimal(self.entries@.len()),
    {
        match &self.failure {
            Some(f) => (0, f.clone()),
            None => {
                let done = decimal_string(self.linenum as u64);
                let total = decimal_string(self.entries.len() as u64);
                let head = concat3("Completed copying ", done.as_str(), " of ");
                (0, concat2(head.as_str(), total.as_str()))
            },
        }
    }

    /// The progress message sent when the run is over.
    pub fn end_message(&self) -> (s: String)
        ensures
            s@ == "Progress|"@ + decimal(self.entries@.len()) + "|"@ + decimal(self.entries@.len())
                + "| end of copy process"@,
    {
        let total = decimal_string(self.entries.len() as u64);
        let head = concat3("Progress|", total.as_str(), "|");
        concat3(head.as_str(), total.as_str(), "| end of copy process")
    }
}

/// Background copies never exceed four: the count stays within 0..=4, and
/// after four started in the background the next copy is waited for.
pub proof fn lemma_mode_cycle(running: u32)
    requires
        running <= 4,
    ensures
        mode_for(running).1 <= 4,
        running == 4 <==> mode_for(running).0 == CopyMode::Wait,
        mode_for(running).0 == CopyMode::Wait ==> mode_for(running).1 == 0,
{
}

/// The directories taken from a record hold no `\` once slashed.
pub proof fn lemma_slashed_has_no_backslash(dir: Seq<char>)
    ensures
        !slashed(dir).contains('\\'),
{
    assert forall|i: int| 0 <= i < slashed(dir).len() implies slashed(dir)[i] != '\\' by {}
}

} // verus!
