//! Choosing and checking the sorted input listing, and reading its first group.

use vstd::prelude::*;
use crate::scan::{GroupScan, ScanPhase};
use crate::text::{concat2, concat3, decimal, decimal_string, lemma_split_nonempty, split_on, split_str, string_of, views};

verus! {

/// What a request for the sorted input reports: a code (0 when a group
/// was read), its message, the chosen file, the group's disc name, the
/// number of lines counted and the group's records.
pub struct SortinOutput {
    pub errcode: u32,
    pub errstring: String,
    pub new_input: String,
    pub lrefname: String,
    pub linenum: u64,
    pub llist: Vec<String>,
}

/// What `std::path::Path::parent` gives for a path, as text.
pub uninterp spec fn path_parent(p: Seq<char>) -> Option<Seq<char>>;

/// The text of the parent of path `p` (`std::path::Path::parent`), `None`
/// where the path ends in a root or prefix or is empty. The contract claims
/// only that the result is `path_parent` of the text.
#[verifier::external_body]
fn parent_of(p: &str) -> (r: Option<String>)
    ensures
        r is Some <==> path_parent(p@) is Some,
        r matches Some(d) ==> path_parent(p@) == Some(d@),
{
    match std::path::Path::new(p).parent() {
        Some(d) => Some(d.to_string_lossy().into_owned()),
        None => None,
    }
}

/// The directory the file dialog opens in: the parent of the previous
/// input when that exists, else `/`. `None` when the previous input exists
/// but has no parent (a root), where no directory can be given.
pub fn dialog_start(previous: &str, exists: bool) -> (r: Option<String>)
    ensures
        !exists ==> (r matches Some(d) && d@ == "/"@),
        exists ==> (r is Some <==> path_parent(previous@) is Some),
        exists ==> (r matches Some(d) ==> path_parent(previous@) == Some(d@)),
{
    if exists {
        parent_of(previous)
    } else {
        Some(String::from_str("/"))
    }
}

/// A decimal digit.
pub open spec fn is_digit(c: char) -> bool {
    '0' <= c <= '9'
}

/// The value of a string of decimal digits.
pub open spec fn digits_value(s: Seq<char>) -> int
    decreases s.len(),
{
    if s.len() == 0 {
        0
    } else {
        digits_value(s.drop_last()) * 10 + (s.last() as int - '0' as int)
    }
}

/// The text with a leading sign taken off.
pub open spec fn unsigned_part(s: Seq<char>) -> Seq<char> {
    if s.len() > 0 && (s[0] == '-' || s[0] == '+') {
        s.drop_first()
    } else {
        s
    }
}

/// The value that `str::parse::<i64>` reads from `s`: an optional `+` or
/// `-`, then one or more decimal digits, with the value in range.
pub open spec fn parse_i64_text(s: Seq<char>) -> Option<i64> {
    let body = unsigned_part(s);
    let v = if s.len() > 0 && s[0] == '-' { -digits_value(body) } else { digits_value(body) };
    if body.len() > 0 && (forall|i: int| 0 <= i < body.len() ==> is_digit(#[trigger] body[i]))
        && i64::MIN <= v <= i64::MAX {
        Some(v as i64)
    } else {
        None
    }
}

/// Reads a signed decimal integer (`str::parse::<i64>`, errors as `None`).
/// The contract states the format that the standard library documents.
#[verifier::external_body]
fn parse_i64(s: &str) -> (r: Option<i64>)
    ensures
        r == parse_i64_text(s@),
{
    s.parse::<i64>().ok()
}

/// What `String::from_utf8_lossy` makes of some bytes.
pub uninterp spec fn lossy_utf8(b: Seq<u8>) -> Seq<char>;

/// Text from bytes, invalid sequences replaced (`String::from_utf8_lossy`).
/// The contract claims that the result is `lossy_utf8` of the bytes, and,
/// as the documentation says, the decoded text where the bytes are valid UTF-8.
#[verifier::external_body]
fn utf8_lossy(b: &[u8]) -> (r: String)
    ensures
        r@ == lossy_utf8(b@),
        vstd::utf8::valid_utf8(b@) ==> r@ == vstd::utf8::decode_utf8(b@),
{
    String::from_utf8_lossy(b).into_owned()
}

/// The value `wc -l` output stands for: its first space-separated word
/// read as an `i64`, or -9999 when it does not read.
pub open spec fn wc_value(out: Seq<char>) -> int {
    match parse_i64_text(split_on(out, ' ')[0]) {
        Some(v) => v as int,
        None => -9999,
    }
}

/// A value as `as u64` makes it of an `i64`.
pub open spec fn as_u64(v: int) -> int {
    if v >= 0 {
        v
    } else {
        v + 0x1_0000_0000_0000_0000
    }
}

/// A failed request: a code and message with no group read.
pub open spec fn failed_output(o: SortinOutput, code: u32, msg: Seq<char>, new_input: Seq<char>) -> bool {
    &&& o.errcode == code
    &&& o.errstring@ == msg
    &&& o.new_input@ == new_input
    &&& o.lrefname@ == "---"@
    &&& o.linenum == 0
    &&& o.llist@.len() == 0
}

fn failure(code: u32, msg: String, new_input: &str) -> (o: SortinOutput)
    ensures
        failed_output(o, code, msg@, new_input@),
{
    SortinOutput {
        errcode: code,
        errstring: msg,
        new_input: string_of(new_input),
        lrefname: String::from_str("---"),
        linenum: 0,
        llist: Vec::new(),
    }
}

/// The report when the file dialog gave no file; the dialog's start
/// directory stands as the input.
pub fn sortin_no_file(start: &str) -> (o: SortinOutput)
    ensures
        failed_output(o, 1, "error getting file -- possible cancel key hit"@, start@),
{
    failure(1, String::from_str("error getting file -- possible cancel key hit"), start)
}

/// What a check of `wc -l` output `out` gives: code 2 when the count does
/// not read as a number, code 3 when it is under 2 (a negative count taken
/// as `as u64` takes it), else the count.
pub open spec fn line_count_result(out: Seq<char>, new_input: Seq<char>, r: Result<u64, SortinOutput>) -> bool {
    &&& wc_value(out) == -9999 ==> (r matches Err(o) && failed_output(
        o,
        2,
        "size of "@ + split_on(out, ' ')[0] + " is invalid for wc -l command call"@,
        new_input,
    ))
    &&& wc_value(out) != -9999 && as_u64(wc_value(out)) < 2 ==> (r matches Err(o) && failed_output(
        o,
        3,
        "size of "@ + decimal(as_u64(wc_value(out)) as nat) + " is less than 2 for "@ + new_input,
        new_input,
    ))
    &&& wc_value(out) != -9999 && as_u64(wc_value(out)) >= 2 ==> (r matches Ok(n) && n == as_u64(
        wc_value(out),
    ))
}

/// Checks the text that `wc -l` printed for the chosen file.
pub fn check_line_count_text(out: &str, new_input: &str) -> (r: Result<u64, SortinOutput>)
    ensures
        line_count_result(out@, new_input@, r),
{
    proof {
        lemma_split_nonempty(out@, ' ');
    }
    let words = split_str(out, ' ');
    assert(words@[0]@ == views(words@)[0]);
    let first = &words[0];
    let value: i64 = match parse_i64(first.as_str()) {
        Some(v) => v,
        None => -9999,
    };
    if value == -9999 {
        return Err(failure(2, concat3("size of ", first.as_str(), " is invalid for wc -l command call"), new_input));
    }
    let rows: u64 = if value >= 0 {
        value as u64
    } else {
        ((value as i128) + 0x1_0000_0000_0000_0000i128) as u64
    };
    if rows < 2 {
        let count = decimal_string(rows);
        let head = concat3("size of ", count.as_str(), " is less than 2 for ");
        return Err(failure(3, concat2(head.as_str(), new_input), new_input));
    }
    Ok(rows)
}

/// Checks the bytes that `wc -l` printed, read as UTF-8 with invalid
/// sequences replaced; see `check_line_count_text`.
pub fn check_line_count(out: &[u8], new_input: &str) -> (r: Result<u64, SortinOutput>)
    ensures
        line_count_result(lossy_utf8(out@), new_input@, r),
{
    let text = utf8_lossy(out);
    check_line_count_text(text.as_str(), new_input)
}

/// The code a finished first-group scan reports: 4 when the input was
/// empty, 5 when the first record lacks separators, 6 when reading failed,
/// else 0.
pub open spec fn sortin_code(scan: GroupScan) -> u32 {
    if scan.phase == ScanPhase::BadHeader {
        5
    } else if scan.phase == ScanPhase::ReadFailed {
        6
    } else if scan.phase == ScanPhase::EndOfInput && scan.linenum < 1 {
        4
    } else {
        0
    }
}

/// The message of each code of a first-group scan of file `new_input`.
pub open spec fn sortin_message(scan: GroupScan, new_input: Seq<char>) -> Seq<char> {
    let code = sortin_code(scan);
    if code == 5 {
        "first line of sorted input file is not valid: "@ + scan.bad_line@
    } else if code == 6 {
        "error of "@ + scan.read_error@ + " reading "@ + new_input
    } else if code == 4 {
        "error bytes_read == 0 for "@ + new_input
    } else {
        "got file"@
    }
}

/// The report of a request for the sorted input once the scan of its
/// first group (from the top, first record checked) has finished.
pub fn sortin_from_scan(new_input: String, scan: GroupScan) -> (o: SortinOutput)
    requires
        scan.wf(),
        scan.skip == 0,
        scan.check_header,
        scan.phase != ScanPhase::Reading,
    ensures
        o.errcode == sortin_code(scan),
        o.errstring@ == sortin_message(scan, new_input@),
        o.new_input@ == new_input@,
        o.lrefname@ == scan.refname@,
        o.linenum == scan.linenum,
        o.llist@ == scan.list@,
{
    let (code, msg) = match scan.phase {
        ScanPhase::BadHeader => (
            5u32,
            concat2("first line of sorted input file is not valid: ", scan.bad_line.as_str()),
        ),
        ScanPhase::ReadFailed => {
            let head = concat3("error of ", scan.read_error.as_str(), " reading ");
            (6u32, concat2(head.as_str(), new_input.as_str()))
        },
        ScanPhase::EndOfInput if scan.linenum < 1 => (
            4u32,
            concat2("error bytes_read == 0 for ", new_input.as_str()),
        ),
        _ => (0u32, String::from_str("got file")),
    };
    SortinOutput {
        errcode: code,
        errstring: msg,
        new_input,
        lrefname: scan.refname,
        linenum: scan.linenum,
        llist: scan.list,
    }
}

/// What a first-group request reports, by what the scan saw: code 4 only
/// when the listing had no line at all; code 0 with "got file" whenever a
/// group was read (ended by another disc's record, or by the end of a
/// listing with lines), and then the group is not empty; code 5 for a bad
/// first record; code 6 for a read error.
pub proof fn lemma_sortin_codes(scan: GroupScan, new_input: Seq<char>)
    requires
        scan.wf(),
        scan.skip == 0,
        scan.check_header,
        scan.phase != ScanPhase::Reading,
    ensures
        (sortin_code(scan) == 4) == (scan.phase == ScanPhase::EndOfInput && scan.lines@.len() == 0),
        (sortin_code(scan) == 0) == (scan.phase == ScanPhase::GroupEnded || (scan.phase
            == ScanPhase::EndOfInput && scan.lines@.len() > 0)),
        sortin_code(scan) == 0 ==> sortin_message(scan, new_input) == "got file"@
            && scan.list@.len() > 0,
        (sortin_code(scan) == 5) == (scan.phase == ScanPhase::BadHeader),
        (sortin_code(scan) == 6) == (scan.phase == ScanPhase::ReadFailed),
{
    assert(views(scan.list@).len() == scan.list@.len());
}

} // verus!
