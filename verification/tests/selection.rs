use site_watch::selection::{parse_selection, plan_selective_delete, resolve_selection,
    SelectionError};

#[test]
fn parses_positive_numbers_to_positions() {
    assert_eq!(parse_selection("1"), Some(vec![0]));
    assert_eq!(parse_selection("1 2"), Some(vec![0, 1]));
    assert_eq!(parse_selection("3 1 2"), Some(vec![2, 0, 1]));
    assert_eq!(parse_selection("+3"), Some(vec![2]));
}

#[test]
fn rejects_text_that_is_not_a_selection() {
    assert_eq!(parse_selection(""), None);
    assert_eq!(parse_selection("a"), None);
    assert_eq!(parse_selection("1 b"), None);
    assert_eq!(parse_selection("0"), None);
    assert_eq!(parse_selection("-1"), None);
    assert_eq!(parse_selection("1  2"), None);
    assert_eq!(parse_selection("2147483648"), None);
    assert_eq!(parse_selection("99999999999999999999"), None);
    assert_eq!(parse_selection("1 "), None);
}

#[test]
fn largest_number_still_parses() {
    assert_eq!(parse_selection("2147483647"), Some(vec![2147483646]));
}

#[test]
fn resolves_positions_against_the_list() {
    let links =
        vec!["https://a.test".to_string(), "https://b.test".to_string(),
            "https://c.test".to_string()];
    let sel = resolve_selection(&links, &vec![2, 0]);
    assert_eq!(sel, Some(vec!["https://c.test".to_string(), "https://a.test".to_string()]));

    assert_eq!(resolve_selection(&links, &vec![3]), None);
}

// Selecting index 1 for deletion after previously deleting index 0 from a
// 3-item list resolves against the current list, not the original.
#[test]
fn deletion_re_resolves_against_current_list() {
    let original = vec![
        "https://a.test".to_string(),
        "https://b.test".to_string(),
        "https://c.test".to_string(),
    ];

    // first command: delete item 1 (the first link)
    let first = plan_selective_delete("1", &original);
    assert_eq!(first, Ok(vec!["https://a.test".to_string()]));

    // the store re-fetches: a.test is gone, the list has shifted
    let current = vec!["https://b.test".to_string(), "https://c.test".to_string()];

    // second command: item 2 now names c.test, as the current list has it
    let second = plan_selective_delete("2", &current);
    assert_eq!(second, Ok(vec!["https://c.test".to_string()]));

    // an index that only the original list had is reported, not skipped
    let stale = plan_selective_delete("3", &current);
    assert_eq!(stale, Err(SelectionError::MissingItems));
}

#[test]
fn invalid_text_and_missing_items_are_told_apart() {
    let links = vec!["https://a.test".to_string()];
    assert_eq!(plan_selective_delete("x", &links), Err(SelectionError::InvalidInput));
    assert_eq!(plan_selective_delete("2", &links), Err(SelectionError::MissingItems));
    assert_eq!(plan_selective_delete("1", &links), Ok(vec!["https://a.test".to_string()]));
}
