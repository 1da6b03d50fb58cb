//! Filter parsing and application.

use anglosaxon::{Filters, TextFilter};

#[test]
fn parse1() {
    assert_eq!(
        Filters::parse_both("id!none").unwrap(),
        ("id".to_string(), Filters(vec![TextFilter::Nothing]))
    );
    assert_eq!(
        Filters::parse_both("id!none!none").unwrap(),
        (
            "id".to_string(),
            Filters(vec![TextFilter::Nothing, TextFilter::Nothing])
        )
    );
}

fn apply(spec: &str, input: &str) -> String {
    let (_name, filters) = Filters::parse_both(spec).unwrap();
    filters.apply(input)
}

#[test]
fn empty1() {
    assert_eq!(apply("x", "foo"), "foo");
}

#[test]
fn empty2() {
    assert_eq!(apply("x!none", "foo"), "foo");
}

#[test]
fn unix1() {
    assert_eq!(apply("x!unix", "foo"), "foo");
}

#[test]
fn unix2() {
    assert_eq!(apply("x!unix", "foo bar"), "foo bar");
}

#[test]
fn unix3() {
    assert_eq!(apply("x!unix", "foo\tbar"), "foo\\tbar");
}

#[test]
fn unix4() {
    assert_eq!(apply("x!unix", "foo\rbar"), "foo\\rbar");
}

#[test]
fn tsv1() {
    assert_eq!(apply("x!tsv", "foo bar"), "foo bar");
}

#[test]
fn tsv2() {
    assert_eq!(apply("x!tsv", "foo\rbar"), "foo\\rbar");
}

#[test]
fn tsv3() {
    assert_eq!(apply("x!tsv", "foo\tbar"), "foo\\tbar");
}

#[test]
fn tsv4() {
    assert_eq!(apply("x!tsv", "foo\" \"bar"), "foo\" \"bar");
}

#[test]
fn empty_chain_is_identity() {
    let filters = Filters::default();
    assert_eq!(filters.apply(""), "");
    assert_eq!(filters.apply("a\tb\nc\\d"), "a\tb\nc\\d");
}

#[test]
fn nothing_filter_is_identity() {
    let filters = Filters(vec![TextFilter::Nothing]);
    assert_eq!(filters.apply("a\tb\nc\\d"), "a\tb\nc\\d");
}

#[test]
fn unix_escapes_newline() {
    let filters = Filters(vec![TextFilter::UnixEscape]);
    assert_eq!(filters.apply("a\nb"), "a\\nb");
}

#[test]
fn tsv_escapes_backslash() {
    let filters = Filters(vec![TextFilter::TSVEscape]);
    assert_eq!(filters.apply("a\\b"), "a\\\\b");
}

#[test]
fn chain_applies_left_to_right() {
    // tsv first turns the tab into a backslash-t; unix then leaves that
    // alone.  In the other order the tsv escape doubles the backslash the
    // unix escape produced: the chains differ on the same input.
    let tsv_then_unix = Filters(vec![TextFilter::TSVEscape, TextFilter::UnixEscape]);
    let unix_then_tsv = Filters(vec![TextFilter::UnixEscape, TextFilter::TSVEscape]);
    assert_eq!(tsv_then_unix.apply("\t"), "\\t");
    assert_eq!(unix_then_tsv.apply("\t"), "\\\\t");
    assert_ne!(tsv_then_unix.apply("\t"), unix_then_tsv.apply("\t"));
}

#[test]
fn unknown_filter_name_is_an_error() {
    let err = Filters::parse_both("id!wat").unwrap_err();
    assert_eq!(err, anglosaxon::CompileError::UnknownFilter("wat".to_string()));
    assert_eq!(err.message(), "unknown filter: wat");
}

#[test]
fn nothing_is_an_alias_for_none() {
    assert_eq!(
        Filters::parse_both("id!nothing").unwrap(),
        ("id".to_string(), Filters(vec![TextFilter::Nothing]))
    );
}
