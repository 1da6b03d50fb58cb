//! Specifier parsing and instruction compilation.

use anglosaxon::specifier::parse_specifier;
use anglosaxon::{parse_to_instructions, Action, CompileError, Directive, Filters, Instruction, TextFilter};

fn d(name: &str, values: &[&str]) -> Directive {
    Directive {
        name: name.to_string(),
        values: values.iter().map(|v| v.to_string()).collect(),
    }
}

fn compile(directives: Vec<Directive>) -> Vec<Instruction> {
    parse_to_instructions(&directives).unwrap()
}

#[test]
fn specifier_plain_name() {
    let (level, name, filters) = parse_specifier("id").unwrap();
    assert_eq!((level, name.as_str(), filters), (0, "id", Filters::default()));
}

#[test]
fn specifier_current_marker() {
    let (level, name, filters) = parse_specifier("./id").unwrap();
    assert_eq!((level, name.as_str(), filters), (0, "id", Filters::default()));
}

#[test]
fn specifier_one_ancestor() {
    let (level, name, filters) = parse_specifier("../id").unwrap();
    assert_eq!((level, name.as_str(), filters), (1, "id", Filters::default()));
}

#[test]
fn specifier_two_ancestors() {
    let (level, name, filters) = parse_specifier("../../id").unwrap();
    assert_eq!((level, name.as_str(), filters), (2, "id", Filters::default()));
}

#[test]
fn specifier_with_filter() {
    let (level, name, filters) = parse_specifier("id!tsv").unwrap();
    assert_eq!(
        (level, name.as_str(), filters),
        (0, "id", Filters(vec![TextFilter::TSVEscape]))
    );
}

#[test]
fn specifier_markers_and_filters_together() {
    let (level, name, filters) = parse_specifier("../.././class!unix!none").unwrap();
    assert_eq!(
        (level, name.as_str(), filters),
        (2, "class", Filters(vec![TextFilter::UnixEscape, TextFilter::Nothing]))
    );
}

#[test]
fn simple_note1() {
    assert_eq!(
        compile(vec![d("startelement", &["note"]), d("raw", &["notestart"])]),
        vec![Instruction::StartTag {
            tag: "note".to_string(),
            actions: vec![Action::RawString("notestart".to_string())]
        }]
    );
}

#[test]
fn simple_note2() {
    assert_eq!(
        compile(vec![
            d("startelement", &["note"]),
            d("raw", &["notestart"]),
            d("raw", &["foo"]),
        ]),
        vec![Instruction::StartTag {
            tag: "note".to_string(),
            actions: vec![
                Action::RawString("notestart".to_string()),
                Action::RawString("foo".to_string()),
            ]
        }]
    );
}

#[test]
fn simple_note3() {
    assert_eq!(
        compile(vec![
            d("startelement", &["note"]),
            d("raw", &["notestart"]),
            d("newline", &[]),
        ]),
        vec![Instruction::StartTag {
            tag: "note".to_string(),
            actions: vec![
                Action::RawString("notestart".to_string()),
                Action::RawString("\n".to_string()),
            ]
        }]
    );
}

#[test]
fn simple_note4() {
    assert_eq!(
        compile(vec![
            d("startelement", &["note"]),
            d("raw", &["notestart"]),
            d("tab", &[]),
        ]),
        vec![Instruction::StartTag {
            tag: "note".to_string(),
            actions: vec![
                Action::RawString("notestart".to_string()),
                Action::RawString("\t".to_string()),
            ]
        }]
    );
}

#[test]
fn start_end_1() {
    assert_eq!(
        compile(vec![
            d("startelement", &["note"]),
            d("raw", &["notestart"]),
            d("endelement", &["note"]),
            d("raw", &["foo"]),
        ]),
        vec![
            Instruction::StartTag {
                tag: "note".to_string(),
                actions: vec![Action::RawString("notestart".to_string())]
            },
            Instruction::EndTag {
                tag: "note".to_string(),
                actions: vec![Action::RawString("foo".to_string())]
            },
        ]
    );
}

#[test]
fn value1() {
    assert_eq!(
        compile(vec![d("startelement", &["note"]), d("value", &["id"])]),
        vec![Instruction::StartTag {
            tag: "note".to_string(),
            actions: vec![Action::Attribute("id".to_string(), Filters::default())]
        }]
    );
}

#[test]
fn value2() {
    assert_eq!(
        compile(vec![d("startelement", &["note"]), d("value", &["./id"])]),
        vec![Instruction::StartTag {
            tag: "note".to_string(),
            actions: vec![Action::Attribute("id".to_string(), Filters::default())]
        }]
    );
}

#[test]
fn value_filter1() {
    assert_eq!(
        compile(vec![d("startelement", &["note"]), d("value", &["./id!tsv"])]),
        vec![Instruction::StartTag {
            tag: "note".to_string(),
            actions: vec![Action::Attribute(
                "id".to_string(),
                Filters(vec![TextFilter::TSVEscape])
            )]
        }]
    );
}

#[test]
fn value_with_two_tabs() {
    assert_eq!(
        compile(vec![
            d("startelement", &["note"]),
            d("value", &["id"]),
            d("tab", &[]),
            d("value", &["class"]),
            d("tab", &[]),
            d("value", &["uid"]),
            d("newline", &[]),
        ]),
        vec![Instruction::StartTag {
            tag: "note".to_string(),
            actions: vec![
                Action::Attribute("id".to_string(), Filters::default()),
                Action::RawString("\t".to_string()),
                Action::Attribute("class".to_string(), Filters::default()),
                Action::RawString("\t".to_string()),
                Action::Attribute("uid".to_string(), Filters::default()),
                Action::RawString("\n".to_string()),
            ]
        }]
    );
}

#[test]
fn value_with_default1() {
    assert_eq!(
        compile(vec![
            d("startelement", &["note"]),
            d("value_with_default", &["id", "NOID"]),
        ]),
        vec![Instruction::StartTag {
            tag: "note".to_string(),
            actions: vec![Action::AttributeWithDefault(
                "id".to_string(),
                "NOID".to_string(),
                Filters::default()
            )]
        }]
    );
}

#[test]
fn value_with_default2() {
    assert_eq!(
        compile(vec![
            d("startelement", &["note"]),
            d("value_with_default", &["./id", "NOID"]),
        ]),
        vec![Instruction::StartTag {
            tag: "note".to_string(),
            actions: vec![Action::AttributeWithDefault(
                "id".to_string(),
                "NOID".to_string(),
                Filters::default()
            )]
        }]
    );
}

#[test]
fn value_with_default_two_tabs() {
    assert_eq!(
        compile(vec![
            d("startelement", &["note"]),
            d("value_with_default", &["id", "NOID"]),
            d("tab", &[]),
            d("value_with_default", &["class", "NOCLASS"]),
            d("tab", &[]),
            d("value_with_default", &["uid", "NOUID"]),
            d("newline", &[]),
        ]),
        vec![Instruction::StartTag {
            tag: "note".to_string(),
            actions: vec![
                Action::AttributeWithDefault(
                    "id".to_string(),
                    "NOID".to_string(),
                    Filters::default()
                ),
                Action::RawString("\t".to_string()),
                Action::AttributeWithDefault(
                    "class".to_string(),
                    "NOCLASS".to_string(),
                    Filters::default()
                ),
                Action::RawString("\t".to_string()),
                Action::AttributeWithDefault(
                    "uid".to_string(),
                    "NOUID".to_string(),
                    Filters::default()
                ),
                Action::RawString("\n".to_string()),
            ]
        }]
    );
}

#[test]
fn parent_attr1() {
    assert_eq!(
        compile(vec![d("startelement", &["note"]), d("value", &["../id"])]),
        vec![Instruction::StartTag {
            tag: "note".to_string(),
            actions: vec![Action::ParentAttribute(1, "id".to_string(), Filters::default())]
        }]
    );
}

#[test]
fn parent_attr2() {
    assert_eq!(
        compile(vec![d("startelement", &["note"]), d("value", &["../../id"])]),
        vec![Instruction::StartTag {
            tag: "note".to_string(),
            actions: vec![Action::ParentAttribute(2, "id".to_string(), Filters::default())]
        }]
    );
}

#[test]
fn parent_attr_with_default1() {
    assert_eq!(
        compile(vec![
            d("startelement", &["note"]),
            d("value_with_default", &["../../id", "NOID"]),
        ]),
        vec![Instruction::StartTag {
            tag: "note".to_string(),
            actions: vec![Action::ParentAttributeWithDefault(
                2,
                "id".to_string(),
                "NOID".to_string(),
                Filters::default()
            )]
        }]
    );
}

#[test]
fn start_doc_parse() {
    assert_eq!(
        compile(vec![d("startdoc", &[]), d("raw", &["foo"])]),
        vec![Instruction::StartDocument {
            actions: vec![Action::RawString("foo".to_string())]
        }]
    );
}

#[test]
fn end_doc_parse() {
    assert_eq!(
        compile(vec![d("enddoc", &[]), d("raw", &["done"])]),
        vec![Instruction::EndDocument {
            actions: vec![Action::RawString("done".to_string())]
        }]
    );
}

#[test]
fn unknown_directive_is_an_error() {
    let err = parse_to_instructions(&vec![d("frobnicate", &[])]).unwrap_err();
    assert_eq!(err, CompileError::UnknownDirective("frobnicate".to_string()));
    assert_eq!(err.message(), "unknown arg: frobnicate");
}

#[test]
fn action_before_scope_is_an_error() {
    let err = parse_to_instructions(&vec![d("raw", &["hello"])]).unwrap_err();
    assert_eq!(err, CompileError::ActionBeforeScope("raw".to_string()));
    assert_eq!(err.message(), "Cannot use -o before you have done a -s/-e");
}

#[test]
fn newline_before_scope_is_an_error() {
    let err = parse_to_instructions(&vec![d("newline", &[])]).unwrap_err();
    assert_eq!(err.message(), "Cannot use --nl before you have done a -s/-e");
}

#[test]
fn unknown_filter_fails_compilation() {
    let err = parse_to_instructions(&vec![
        d("startelement", &["note"]),
        d("value", &["id!bogus"]),
    ])
    .unwrap_err();
    assert_eq!(err, CompileError::UnknownFilter("bogus".to_string()));
}

#[test]
fn missing_argument_is_an_error() {
    let err = parse_to_instructions(&vec![d("startelement", &[])]).unwrap_err();
    assert_eq!(err, CompileError::MissingArgument("startelement".to_string()));
    let err = parse_to_instructions(&vec![
        d("startelement", &["note"]),
        d("value_with_default", &["id"]),
    ])
    .unwrap_err();
    assert_eq!(err, CompileError::MissingArgument("value_with_default".to_string()));
}
