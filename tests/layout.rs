use pqdump::error::{check_layout, PqDumpError};

#[test]
fn one_row_group_with_columns_is_accepted() {
    assert_eq!(check_layout(&vec![1]), Ok(()));
    assert_eq!(check_layout(&vec![7]), Ok(()));
}

#[test]
fn two_row_groups_are_rejected() {
    let e = check_layout(&vec![1, 1]).unwrap_err();
    assert_eq!(e, PqDumpError::MultipleRowGroups);
    assert!(e.message("pqdump").contains("Multiple row groups given"));
}

#[test]
fn empty_row_group_is_rejected() {
    let e = check_layout(&vec![0]).unwrap_err();
    assert_eq!(e, PqDumpError::NoColumns);
    assert!(e.message("pqdump").contains("No columns"));
    assert_eq!(check_layout(&vec![]), Err(PqDumpError::NoColumns));
}

#[test]
fn usage_message() {
    let m = PqDumpError::Usage.message("pqdump");
    assert_eq!(m, "Invalid usage...\nUsage: pqdump <PATH>\n");
    assert!(m.contains("Usage:"));
}
