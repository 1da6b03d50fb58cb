//! The executor's event-by-event interface and its ancestor context.

use anglosaxon::{
    has_parent_attributes, process_events, Action, Attr, Event, Executor, Filters, Instruction,
};

fn open(name: &str, attrs: &[(&str, &str)]) -> Event {
    Event::StartElement {
        name: name.to_string(),
        attributes: attrs
            .iter()
            .map(|(n, v)| Attr {
                name: n.to_string(),
                value: v.to_string(),
            })
            .collect(),
    }
}

fn close(name: &str) -> Event {
    Event::EndElement {
        name: name.to_string(),
    }
}

#[test]
fn no_ancestor_actions_keep_context_empty() {
    // A deep synthetic document: without ancestor-attribute actions the
    // tracked context never grows, whatever the depth.
    let instructions = vec![Instruction::StartTag {
        tag: "d".to_string(),
        actions: vec![Action::RawString(".".to_string())],
    }];
    assert!(!has_parent_attributes(&instructions));
    let mut ex = Executor::new(&instructions);
    let mut output = String::new();
    ex.step(&instructions, &Event::StartDocument, &mut output).unwrap();
    for _ in 0..500 {
        ex.step(&instructions, &open("d", &[]), &mut output).unwrap();
        assert_eq!(ex.depth(), 0);
    }
    for _ in 0..500 {
        ex.step(&instructions, &close("d"), &mut output).unwrap();
        assert_eq!(ex.depth(), 0);
    }
    ex.step(&instructions, &Event::EndDocument, &mut output).unwrap();
    assert_eq!(ex.depth(), 0);
    assert_eq!(output.len(), 500);
}

#[test]
fn context_depth_tracks_open_elements() {
    // With an ancestor-attribute action in the program, the context's size
    // equals the number of currently open elements at every point.
    let instructions = vec![Instruction::StartTag {
        tag: "leaf".to_string(),
        actions: vec![Action::ParentAttributeWithDefault(
            1,
            "id".to_string(),
            "none".to_string(),
            Filters::default(),
        )],
    }];
    assert!(has_parent_attributes(&instructions));
    let mut ex = Executor::new(&instructions);
    let mut output = String::new();
    ex.step(&instructions, &Event::StartDocument, &mut output).unwrap();
    assert_eq!(ex.depth(), 0);
    for k in 0..100usize {
        ex.step(&instructions, &open("d", &[("id", "x")]), &mut output).unwrap();
        assert_eq!(ex.depth(), k + 1);
    }
    for k in 0..100usize {
        ex.step(&instructions, &close("d"), &mut output).unwrap();
        assert_eq!(ex.depth(), 99 - k);
    }
    ex.step(&instructions, &Event::EndDocument, &mut output).unwrap();
    assert_eq!(ex.depth(), 0);
}

#[test]
fn process_events_runs_program_in_order() {
    let instructions = vec![
        Instruction::StartDocument {
            actions: vec![Action::RawString("[".to_string())],
        },
        Instruction::StartTag {
            tag: "n".to_string(),
            actions: vec![Action::Attribute("id".to_string(), Filters::default())],
        },
        Instruction::EndDocument {
            actions: vec![Action::RawString("]".to_string())],
        },
    ];
    let events = vec![
        Event::StartDocument,
        open("n", &[("id", "1")]),
        Event::Other,
        close("n"),
        open("n", &[("id", "2")]),
        close("n"),
        Event::EndDocument,
    ];
    let mut output = String::new();
    process_events(&instructions, &events, &mut output).unwrap();
    assert_eq!(output, "[12]");
}

#[test]
fn process_events_stops_at_first_error() {
    let instructions = vec![Instruction::StartTag {
        tag: "n".to_string(),
        actions: vec![
            Action::RawString("a".to_string()),
            Action::Attribute("id".to_string(), Filters::default()),
            Action::RawString("never".to_string()),
        ],
    }];
    let events = vec![
        Event::StartDocument,
        open("n", &[]),
        open("n", &[("id", "2")]),
        Event::EndDocument,
    ];
    let mut output = String::new();
    let err = process_events(&instructions, &events, &mut output).unwrap_err();
    // the literal before the failing lookup was emitted; nothing after it
    assert_eq!(output, "a");
    assert_eq!(
        err,
        anglosaxon::ExecError::MissingAttribute {
            attr: "id".to_string(),
            tag: "n".to_string(),
            present: vec![],
        }
    );
}

#[test]
fn first_matching_attribute_wins() {
    let instructions = vec![Instruction::StartTag {
        tag: "n".to_string(),
        actions: vec![Action::Attribute("id".to_string(), Filters::default())],
    }];
    let events = vec![open("n", &[("id", "first"), ("id", "second")])];
    let mut output = String::new();
    process_events(&instructions, &events, &mut output).unwrap();
    assert_eq!(output, "first");
}

#[test]
fn get_attr_reports_present_attributes() {
    let attrs = vec![
        Attr {
            name: "a".to_string(),
            value: "1".to_string(),
        },
        Attr {
            name: "b".to_string(),
            value: "2".to_string(),
        },
    ];
    assert_eq!(anglosaxon::get_attr(&attrs, "b", "t").unwrap(), "2");
    let err = anglosaxon::get_attr(&attrs, "c", "t").unwrap_err();
    assert_eq!(err.message(), "No attribute c found for element t. Attributes: a,b");
}

#[test]
fn ancestor_error_message_names_level_and_depth() {
    let e = anglosaxon::ExecError::AncestorTooDeep { level: 12, depth: 3 };
    assert_eq!(e.message(), "ancestor level 12 exceeds the open element depth 3");
}
