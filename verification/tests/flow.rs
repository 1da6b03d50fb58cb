//! End-to-end runs: a document streamed through a compiled program.

use anglosaxon::{process, Action, Filters, Instruction, ProcessError, TextFilter};

fn run(input: &str, instructions: &Vec<Instruction>) -> String {
    let mut output = String::new();
    process(instructions, input.as_bytes(), &mut output).unwrap();
    output
}

#[test]
fn simple1() {
    let instructions = vec![Instruction::StartTag {
        tag: "note".to_string(),
        actions: vec![Action::RawString("notestart".to_string())],
    }];
    assert_eq!(run("<note>hello</note>", &instructions), "notestart");
}

#[test]
fn simple2() {
    let instructions = vec![Instruction::StartTag {
        tag: "note".to_string(),
        actions: vec![Action::RawString("notestart".to_string())],
    }];
    assert_eq!(
        run("<notes><note>hello</note><note>hi</note></notes>", &instructions),
        "notestartnotestart"
    );
}

#[test]
fn simple3() {
    let instructions = vec![Instruction::StartTag {
        tag: "note".to_string(),
        actions: vec![Action::RawString("notestart".to_string())],
    }];
    assert_eq!(run("<note>hello<note>hi</note></note>", &instructions), "notestartnotestart");
}

#[test]
fn simple_end_1() {
    let instructions = vec![
        Instruction::StartTag {
            tag: "note".to_string(),
            actions: vec![Action::RawString("notestart ".to_string())],
        },
        Instruction::EndTag {
            tag: "note".to_string(),
            actions: vec![Action::RawString("noteend ".to_string())],
        },
    ];
    assert_eq!(
        run("<note>hello<note>hi</note></note>", &instructions),
        "notestart notestart noteend noteend "
    );
}

#[test]
fn attribute1() {
    let instructions = vec![
        Instruction::StartTag {
            tag: "note".to_string(),
            actions: vec![Action::Attribute("id".to_string(), Filters::default())],
        },
        Instruction::EndTag {
            tag: "note".to_string(),
            actions: vec![Action::RawString("\n".to_string())],
        },
    ];
    assert_eq!(
        run(
            r#"<notes><note id="1">hello</note><note id="2">hi</note></notes>"#,
            &instructions
        ),
        "1\n2\n"
    );
}

#[test]
fn attribute_with_default1() {
    let instructions = vec![
        Instruction::StartTag {
            tag: "note".to_string(),
            actions: vec![Action::AttributeWithDefault(
                "id".to_string(),
                "NOID".to_string(),
                Filters::default(),
            )],
        },
        Instruction::EndTag {
            tag: "note".to_string(),
            actions: vec![Action::RawString("\n".to_string())],
        },
    ];
    assert_eq!(
        run(r#"<notes><note id="1">hello</note><note>hi</note></notes>"#, &instructions),
        "1\nNOID\n"
    );
}

#[test]
fn attribute_with_parent_value1() {
    let instructions = vec![
        Instruction::StartTag {
            tag: "comment".to_string(),
            actions: vec![
                Action::Attribute("id".to_string(), Filters::default()),
                Action::RawString(".".to_string()),
                Action::ParentAttribute(1, "id".to_string(), Filters::default()),
            ],
        },
        Instruction::EndTag {
            tag: "comment".to_string(),
            actions: vec![Action::RawString("\n".to_string())],
        },
    ];
    assert_eq!(
        run(
            r#"<notes><note id="1">hello<comment id="10">foo</comment><comment id="11">bar</comment></note><note>hi</note></notes>"#,
            &instructions
        ),
        "10.1\n11.1\n"
    );
}

#[test]
fn attribute_with_parent_value2() {
    let instructions = vec![
        Instruction::StartTag {
            tag: "comment".to_string(),
            actions: vec![
                Action::Attribute("id".to_string(), Filters::default()),
                Action::RawString(".".to_string()),
                Action::ParentAttributeWithDefault(
                    1,
                    "id".to_string(),
                    "NOID".to_string(),
                    Filters::default(),
                ),
            ],
        },
        Instruction::EndTag {
            tag: "comment".to_string(),
            actions: vec![Action::RawString("\n".to_string())],
        },
    ];
    assert_eq!(
        run(
            r#"<notes><note id="1">hello<comment id="10">foo</comment><comment id="11">bar</comment></note><note>hi<comment id="20">foo</comment></note></notes>"#,
            &instructions
        ),
        "10.1\n11.1\n20.NOID\n"
    );
}

#[test]
fn start_doc() {
    let instructions = vec![
        Instruction::StartDocument {
            actions: vec![Action::RawString("startdoc".to_string())],
        },
        Instruction::StartTag {
            tag: "notes".to_string(),
            actions: vec![Action::RawString(".notes.".to_string())],
        },
        Instruction::EndDocument {
            actions: vec![Action::RawString("enddoc".to_string())],
        },
    ];
    assert_eq!(
        run(
            r#"<notes><note id="1">hello<comment id="10">foo</comment><comment id="11">bar</comment></note><note>hi</note></notes>"#,
            &instructions
        ),
        "startdoc.notes.enddoc"
    );
}

#[test]
fn attribute_with_filter1() {
    let instructions = vec![
        Instruction::StartTag {
            tag: "note".to_string(),
            actions: vec![Action::Attribute("id".to_string(), Filters::default())],
        },
        Instruction::EndTag {
            tag: "note".to_string(),
            actions: vec![Action::RawString("\n".to_string())],
        },
    ];
    assert_eq!(
        run(
            r#"<notes><note id="1">hello</note><note id="2">hi</note></notes>"#,
            &instructions
        ),
        "1\n2\n"
    );
}

#[test]
fn attribute_with_filter2() {
    let instructions = vec![
        Instruction::StartTag {
            tag: "note".to_string(),
            actions: vec![Action::Attribute(
                "author".to_string(),
                Filters(vec![TextFilter::TSVEscape]),
            )],
        },
        Instruction::EndTag {
            tag: "note".to_string(),
            actions: vec![Action::RawString("\n".to_string())],
        },
    ];
    assert_eq!(
        run(
            "<notes><note author=\"foo\nbar\">hello</note><note author=\"ok\">hi</note></notes>",
            &instructions
        ),
        "foo\\nbar\nok\n"
    );
}

#[test]
fn missing_required_attribute_fails() {
    // The second note has no id: the run fails there, the error names the
    // attribute, the element, and the attributes actually present, and the
    // output of the events before the failure point is kept while nothing
    // after it is emitted.
    let instructions = vec![
        Instruction::StartTag {
            tag: "note".to_string(),
            actions: vec![Action::Attribute("id".to_string(), Filters::default())],
        },
        Instruction::EndTag {
            tag: "note".to_string(),
            actions: vec![Action::RawString("\n".to_string())],
        },
    ];
    let mut output = String::new();
    let err = process(
        &instructions,
        r#"<notes><note id="1">a</note><note class="x" uid="9">b</note><note id="3">c</note></notes>"#.as_bytes(),
        &mut output,
    )
    .unwrap_err();
    assert_eq!(output, "1\n");
    match &err {
        ProcessError::Exec(e) => {
            assert_eq!(
                e.message(),
                "No attribute id found for element note. Attributes: class,uid"
            );
        }
        other => panic!("unexpected error: {:?}", other),
    }
}

#[test]
fn ancestor_level_beyond_depth_fails() {
    // The root element has exactly the attribute asked for, but at its own
    // open event no ancestor is open yet: the depth error fires regardless
    // of whether the attribute exists anywhere.
    let instructions = vec![Instruction::StartTag {
        tag: "note".to_string(),
        actions: vec![Action::ParentAttribute(1, "id".to_string(), Filters::default())],
    }];
    let mut output = String::new();
    let err = process(&instructions, r#"<note id="1">x</note>"#.as_bytes(), &mut output)
        .unwrap_err();
    assert_eq!(output, "");
    match &err {
        ProcessError::Exec(e) => {
            assert_eq!(
                *e,
                anglosaxon::ExecError::AncestorTooDeep { level: 1, depth: 0 }
            );
        }
        other => panic!("unexpected error: {:?}", other),
    }
}

#[test]
fn ancestor_level_two_beyond_depth_fails() {
    let instructions = vec![Instruction::StartTag {
        tag: "comment".to_string(),
        actions: vec![Action::ParentAttribute(2, "id".to_string(), Filters::default())],
    }];
    let mut output = String::new();
    let err = process(
        &instructions,
        r#"<note id="1"><comment id="10">x</comment></note>"#.as_bytes(),
        &mut output,
    )
    .unwrap_err();
    assert_eq!(output, "");
    assert!(matches!(
        err,
        ProcessError::Exec(anglosaxon::ExecError::AncestorTooDeep { level: 2, depth: 1 })
    ));
}

#[test]
fn malformed_document_propagates_source_error() {
    let instructions = vec![Instruction::StartTag {
        tag: "note".to_string(),
        actions: vec![Action::RawString("x".to_string())],
    }];
    let mut output = String::new();
    let err = process(&instructions, "<note>never closed".as_bytes(), &mut output).unwrap_err();
    assert!(matches!(err, ProcessError::Xml(_)));
    // what was emitted before the source failed is kept
    assert_eq!(output, "x");
}

#[test]
fn filters_apply_to_default_values_too() {
    let instructions = vec![Instruction::StartTag {
        tag: "note".to_string(),
        actions: vec![Action::AttributeWithDefault(
            "id".to_string(),
            "no\tid".to_string(),
            Filters(vec![TextFilter::TSVEscape]),
        )],
    }];
    assert_eq!(run("<note>x</note>", &instructions), "no\\tid");
}

#[test]
fn ancestor_lookup_level_one() {
    let instructions = vec![Instruction::StartTag {
        tag: "comment".to_string(),
        actions: vec![
            Action::Attribute("id".to_string(), Filters::default()),
            Action::RawString(".".to_string()),
            Action::ParentAttribute(1, "id".to_string(), Filters::default()),
        ],
    }];
    assert_eq!(
        run(r#"<note id="1"><comment id="10">x</comment></note>"#, &instructions),
        "10.1"
    );
}
