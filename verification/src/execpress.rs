//! The checks made before a copy run starts.

use vstd::prelude::*;

verus! {

/// The code `execpress` reports: the first failed check in the order
/// sorted input, target directory, disc directory, file list; 0 when all pass.
pub open spec fn execpress_code(
    sortin_exists: bool,
    bkdir_exists: bool,
    targetdir_exists: bool,
    list_len: nat,
) -> u32 {
    if !sortin_exists {
        4
    } else if !targetdir_exists {
        3
    } else if !bkdir_exists {
        2
    } else if list_len < 1 {
        1
    } else {
        0
    }
}

/// The message that goes with each code of `execpress`.
pub open spec fn execpress_message(code: u32) -> Seq<char> {
    if code == 4 {
        "the sorted input does not exist"@
    } else if code == 3 {
        "the target directory does not exist"@
    } else if code == 2 {
        "the blu ray disk directory does not exist"@
    } else if code == 1 {
        "the list of files is less than 1"@
    } else {
        "all good and now process execution"@
    }
}

/// Decides whether a copy run may start, given whether the sorted input
/// file, the disc directory and the target directory exist, and the list
/// of files to copy. Returns a code and its message; code 0 means go.
pub fn execpress(
    sortin_exists: bool,
    bkdir_exists: bool,
    targetdir_exists: bool,
    list: &Vec<String>,
) -> (r: (u32, String))
    ensures
        r.0 == execpress_code(sortin_exists, bkdir_exists, targetdir_exists, list@.len()),
        r.1@ == execpress_message(r.0),
{
    let mut errcode: u32 = 0;
    let mut errstring = String::from_str("all good and now process execution");
    if sortin_exists {
        if targetdir_exists {
            if bkdir_exists {
                if list.len() < 1 {
                    errstring = String::from_str("the list of files is less than 1");
                    errcode = 1;
                }
            } else {
                errstring = String::from_str("the blu ray disk directory does not exist");
                errcode = 2;
            }
        } else {
            errstring = String::from_str("the target directory does not exist");
            errcode = 3;
        }
    } else {
        errstring = String::from_str("the sorted input does not exist");
        errcode = 4;
    }
    (errcode, errstring)
}

/// The checks of `execpress`: a missing sorted input always gives 4; with
/// the sorted input there, a missing target directory gives 3 whatever the
/// disc directory and list; with both there, a missing disc directory gives
/// 2, then an empty list 1; and 0, the go-ahead, comes exactly when all
/// three exist and the list is not empty. Each code has its message.
pub proof fn lemma_execpress_checks(s: bool, b: bool, t: bool, n: nat)
    ensures
        !s ==> execpress_code(s, b, t, n) == 4,
        s && !t ==> execpress_code(s, b, t, n) == 3,
        s && t && !b ==> execpress_code(s, b, t, n) == 2,
        s && t && b && n == 0 ==> execpress_code(s, b, t, n) == 1,
        (execpress_code(s, b, t, n) == 0) == (s && t && b && n >= 1),
        execpress_message(4) == "the sorted input does not exist"@,
        execpress_message(3) == "the target directory does not exist"@,
        execpress_message(2) == "the blu ray disk directory does not exist"@,
        execpress_message(1) == "the list of files is less than 1"@,
        execpress_message(0) == "all good and now process execution"@,
{
}

} // verus!
