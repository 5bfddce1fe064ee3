use restorefiles::execpress;

fn list(n: usize) -> Vec<String> {
    (0..n).map(|i| format!("disc|dir|f{}|||||d", i)).collect()
}

#[test]
fn execpress_all_good() {
    assert_eq!(
        execpress(true, true, true, &list(2)),
        (0, "all good and now process execution".to_string())
    );
}

#[test]
fn execpress_empty_list() {
    assert_eq!(
        execpress(true, true, true, &list(0)),
        (1, "the list of files is less than 1".to_string())
    );
}

#[test]
fn execpress_missing_disc_dir() {
    assert_eq!(
        execpress(true, false, true, &list(3)),
        (2, "the blu ray disk directory does not exist".to_string())
    );
}

#[test]
fn execpress_missing_target() {
    assert_eq!(
        execpress(true, false, false, &list(0)),
        (3, "the target directory does not exist".to_string())
    );
}

#[test]
fn execpress_missing_sorted_input() {
    assert_eq!(
        execpress(false, false, false, &list(0)),
        (4, "the sorted input does not exist".to_string())
    );
}
