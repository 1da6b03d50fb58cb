//! The ordered-argument reconstructor: rebuilding the user's interleaving
//! of heterogeneous repeated flags from per-flag occurrence data.

use anglosaxon::{ordered_directives, parse_to_instructions, Action, Directive, Filters, FlagOccurrences, Instruction};

fn flag(name: &str, num_vals: usize, indices: &[usize], values: &[&str]) -> FlagOccurrences {
    FlagOccurrences {
        name: name.to_string(),
        num_vals,
        indices: indices.to_vec(),
        values: values.iter().map(|v| v.to_string()).collect(),
    }
}

fn dir(name: &str, values: &[&str]) -> Directive {
    Directive {
        name: name.to_string(),
        values: values.iter().map(|v| v.to_string()).collect(),
    }
}

#[test]
fn interleaving_is_restored() {
    // As typed: -v id --tab -v class  (values at positions 2 and 5, the
    // bare flag at position 3).  Grouped per flag, the ordering across
    // flags is gone; the reconstructor restores it.
    let flags = vec![
        flag("value", 1, &[2, 5], &["id", "class"]),
        flag("tab", 0, &[3], &[]),
    ];
    assert_eq!(
        ordered_directives(&flags),
        vec![
            dir("value", &["id"]),
            dir("tab", &[]),
            dir("value", &["class"]),
        ]
    );
}

#[test]
fn two_slot_flags_consume_consecutive_positions() {
    // -s note -V id NOID -V class NOCLASS : the two-slot flag appears
    // twice, each occurrence holding two consecutive value positions.
    let flags = vec![
        flag("startelement", 1, &[2], &["note"]),
        flag("value_with_default", 2, &[4, 5, 7, 8], &["id", "NOID", "class", "NOCLASS"]),
    ];
    assert_eq!(
        ordered_directives(&flags),
        vec![
            dir("startelement", &["note"]),
            dir("value_with_default", &["id", "NOID"]),
            dir("value_with_default", &["class", "NOCLASS"]),
        ]
    );
}

#[test]
fn zero_arg_flags_keep_every_occurrence() {
    let flags = vec![
        flag("newline", 0, &[4, 9], &[]),
        flag("raw", 1, &[2, 7], &["a", "b"]),
        flag("startdoc", 0, &[1], &[]),
    ];
    assert_eq!(
        ordered_directives(&flags),
        vec![
            dir("startdoc", &[]),
            dir("raw", &["a"]),
            dir("newline", &[]),
            dir("raw", &["b"]),
            dir("newline", &[]),
        ]
    );
}

#[test]
fn empty_input_reconstructs_nothing() {
    assert_eq!(ordered_directives(&vec![]), vec![]);
}

#[test]
fn reconstruction_feeds_compilation() {
    // -s note -v id --tab -v class --nl, reported per flag, compiles to the
    // program the user wrote, not to all -v occurrences first.
    let flags = vec![
        flag("startelement", 1, &[2], &["note"]),
        flag("value", 1, &[4, 7], &["id", "class"]),
        flag("tab", 0, &[5], &[]),
        flag("newline", 0, &[8], &[]),
    ];
    let directives = ordered_directives(&flags);
    let instructions = parse_to_instructions(&directives).unwrap();
    assert_eq!(
        instructions,
        vec![Instruction::StartTag {
            tag: "note".to_string(),
            actions: vec![
                Action::Attribute("id".to_string(), Filters::default()),
                Action::RawString("\t".to_string()),
                Action::Attribute("class".to_string(), Filters::default()),
                Action::RawString("\n".to_string()),
            ]
        }]
    );
}
