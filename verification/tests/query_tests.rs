use tuser::query::build;
use tuser::query::QueryError;

#[test]
fn build_partitions_mixed_tokens() {
    let q = build("123, foo 456 ,,bar").unwrap();
    assert_eq!(q.numeric_ids, vec!["123".to_string(), "456".to_string()]);
    assert_eq!(q.login_names, vec!["foo".to_string(), "bar".to_string()]);
}

#[test]
fn build_keeps_interior_commas_inside_a_token() {
    let q = build("123, foo 456,,bar").unwrap();
    assert_eq!(q.numeric_ids, vec!["123".to_string()]);
    assert_eq!(q.login_names, vec!["foo".to_string(), "456,,bar".to_string()]);
}

#[test]
fn build_fails_on_empty_text() {
    assert_eq!(build("").unwrap_err(), QueryError::NoIdentifiers);
}

#[test]
fn build_fails_on_whitespace_text() {
    assert_eq!(build("  \t \n  ").unwrap_err(), QueryError::NoIdentifiers);
}

#[test]
fn build_fails_on_single_comma() {
    assert_eq!(build(",").unwrap_err(), QueryError::NoIdentifiers);
}

#[test]
fn build_fails_on_commas_and_whitespace() {
    assert_eq!(build(",,, ,  ,,").unwrap_err(), QueryError::NoIdentifiers);
}

#[test]
fn build_drops_comma_only_tokens_but_keeps_others() {
    let q = build(",abc, ,, ,123,").unwrap();
    assert_eq!(q.numeric_ids, vec!["123".to_string()]);
    assert_eq!(q.login_names, vec!["abc".to_string()]);
}

#[test]
fn build_preserves_duplicates_and_order() {
    let q = build("foo 7 foo 7").unwrap();
    assert_eq!(q.numeric_ids, vec!["7".to_string(), "7".to_string()]);
    assert_eq!(q.login_names, vec!["foo".to_string(), "foo".to_string()]);
}

#[test]
fn build_classifies_at_the_unsigned_32_bit_boundary() {
    let q = build("4294967295 4294967296").unwrap();
    assert_eq!(q.numeric_ids, vec!["4294967295".to_string()]);
    assert_eq!(q.login_names, vec!["4294967296".to_string()]);
}

#[test]
fn build_keeps_leading_zeros_verbatim() {
    let q = build("007").unwrap();
    assert_eq!(q.numeric_ids, vec!["007".to_string()]);
    assert!(q.login_names.is_empty());
}

#[test]
fn build_accepts_one_leading_plus_as_numeric() {
    let q = build("+123").unwrap();
    assert_eq!(q.numeric_ids, vec!["+123".to_string()]);
    assert!(q.login_names.is_empty());
}

#[test]
fn build_treats_bare_plus_as_login() {
    let q = build("+").unwrap();
    assert!(q.numeric_ids.is_empty());
    assert_eq!(q.login_names, vec!["+".to_string()]);
}

#[test]
fn build_single_login_name() {
    let q = build("ninja").unwrap();
    assert!(q.numeric_ids.is_empty());
    assert_eq!(q.login_names, vec!["ninja".to_string()]);
}

#[test]
fn build_splits_on_unicode_whitespace() {
    let q = build("a\u{a0}b\u{3000}7").unwrap();
    assert_eq!(q.numeric_ids, vec!["7".to_string()]);
    assert_eq!(q.login_names, vec!["a".to_string(), "b".to_string()]);
}

#[test]
fn build_does_not_split_on_zero_width_space() {
    let q = build("a\u{200b}b").unwrap();
    assert_eq!(q.login_names, vec!["a\u{200b}b".to_string()]);
}

#[test]
fn build_trims_commas_inside_the_token_edges_only() {
    let q = build(",,a,b,,").unwrap();
    assert!(q.numeric_ids.is_empty());
    assert_eq!(q.login_names, vec!["a,b".to_string()]);
}
