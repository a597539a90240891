use nekonomicon::parser::{parse, parser, AbstractTreeNode, DataNode, SignatureNode, Number, Expected};

#[test]
fn parses_simple_module() {
    let input = "say 'hello'.";
    let nodes = parser(input);
    assert!(nodes.iter().any(|n| matches!(n, AbstractTreeNode::Module(m) if m.name == "say")));
}

#[test]
fn parses_say_literal() {
    let input = "say @my_variable.";
    let nodes = parser(input);
    assert!(nodes.iter().any(|n| matches!(n, AbstractTreeNode::Module(m) if m.name == "say")));
}

#[test]
fn parses_data_text() {
    let input = "text 'abc'.";
    let nodes = parser(input);
    let found = nodes.iter().any(|n| match n {
        AbstractTreeNode::Module(m) => m.args.iter().any(
            |a| matches!(a, AbstractTreeNode::Data(DataNode::Text(t)) if t == "abc"),
        ),
        _ => false,
    });
    assert!(found);
}

#[test]
fn parses_signatures() {
    let input = "say 'hi' trace elapsed silent timeout 5 sec on mac.";
    let nodes = parser(input);
    let found_trace = nodes.iter().any(
        |n| matches!(n, AbstractTreeNode::Signature(SignatureNode::Trace)),
    );
    let found_elapsed = nodes.iter().any(
        |n| matches!(n, AbstractTreeNode::Signature(SignatureNode::Elapsed)),
    );
    let found_silent = nodes.iter().any(
        |n| matches!(n, AbstractTreeNode::Signature(SignatureNode::Silent)),
    );
    let found_timeout = nodes.iter().any(|n| matches!(
        n,
        AbstractTreeNode::Signature(SignatureNode::Timeout(v, u))
            if *v == Number { mantissa: 5, scale: 0 } && u == "sec"
    ));
    let found_on = nodes.iter().any(
        |n| matches!(n, AbstractTreeNode::Signature(SignatureNode::On(p)) if p == "mac"),
    );
    assert!(found_trace && found_elapsed && found_silent && found_timeout && found_on);
}

fn assert_signature(input: &str, expected: &[SignatureNode]) {
    let nodes = parser(input);
    for sig in expected {
        assert!(
            nodes.iter().any(|n| matches!(n, AbstractTreeNode::Signature(s) if s == sig)),
            "Signature {:?} not found in input '{}'",
            sig,
            input
        );
    }
}

#[test]
fn parses_various_signatures() {
    let cases = vec![
        ("trace.", vec![SignatureNode::Trace]),
        ("elapsed.", vec![SignatureNode::Elapsed]),
        ("silent.", vec![SignatureNode::Silent]),
        (
            "timeout 10 sec.",
            vec![SignatureNode::Timeout(Number { mantissa: 10, scale: 0 }, "sec".to_string())],
        ),
        ("on linux.", vec![SignatureNode::On("linux".to_string())]),
        ("trace elapsed.", vec![SignatureNode::Trace, SignatureNode::Elapsed]),
        (
            "trace silent elapsed.",
            vec![SignatureNode::Trace, SignatureNode::Silent, SignatureNode::Elapsed],
        ),
        (
            "timeout 3 min on windows.",
            vec![
                SignatureNode::Timeout(Number { mantissa: 3, scale: 0 }, "min".to_string()),
                SignatureNode::On("windows".to_string()),
            ],
        ),
    ];

    for (input, expected) in cases {
        assert_signature(input, &expected);
    }
}

#[test]
fn signature_completeness() {
    let nodes = parse("say 'hi' trace elapsed silent timeout 5 sec on mac.").unwrap();
    let count = |pred: &dyn Fn(&AbstractTreeNode) -> bool| nodes.iter().filter(|n| pred(n)).count();
    assert_eq!(count(&|n| matches!(n, AbstractTreeNode::Signature(SignatureNode::Trace))), 1);
    assert_eq!(count(&|n| matches!(n, AbstractTreeNode::Signature(SignatureNode::Elapsed))), 1);
    assert_eq!(count(&|n| matches!(n, AbstractTreeNode::Signature(SignatureNode::Silent))), 1);
    assert_eq!(
        count(&|n| matches!(
            n,
            AbstractTreeNode::Signature(SignatureNode::Timeout(v, u))
                if *v == Number { mantissa: 5, scale: 0 } && u == "sec"
        )),
        1
    );
    assert_eq!(
        count(&|n| matches!(
            n,
            AbstractTreeNode::Signature(SignatureNode::On(p)) if p == "mac"
        )),
        1
    );
}

#[test]
fn timeout_default_on_bad_number() {
    let nodes = parse("say 'hi' timeout x sec.").unwrap();
    let found = nodes.iter().any(|n| matches!(
        n,
        AbstractTreeNode::Signature(SignatureNode::Timeout(v, u))
            if *v == Number { mantissa: 0, scale: 0 } && u == "sec"
    ));
    assert!(found);
}

#[test]
fn missing_terminator_fails() {
    let err = parse("say 'hi'").unwrap_err();
    assert_eq!(err.expected, Expected::Terminator);
    assert_eq!(err.found, None);
}

#[test]
fn data_shape_classification() {
    let nodes = parse("text 'abc'.").unwrap();
    assert_eq!(nodes.len(), 1);
    match &nodes[0] {
        AbstractTreeNode::Module(m) => {
            assert_eq!(m.name, "text");
            assert_eq!(m.args.len(), 1);
            assert!(matches!(
                &m.args[0],
                AbstractTreeNode::Data(DataNode::Text(t)) if t == "abc"
            ));
        }
        _ => panic!("expected a module node"),
    }
}

#[test]
fn parses_container_argument() {
    let nodes = parse("copy [box].").unwrap();
    match &nodes[0] {
        AbstractTreeNode::Module(m) => {
            assert_eq!(m.name, "copy");
            assert!(matches!(
                &m.args[0],
                AbstractTreeNode::Data(DataNode::Container(c)) if c == "box"
            ));
        }
        _ => panic!("expected a module node"),
    }
}

#[test]
fn bare_word_argument_falls_back_to_literal() {
    let nodes = parse("say 'a', b.").unwrap();
    match &nodes[0] {
        AbstractTreeNode::Module(m) => {
            assert_eq!(m.args.len(), 2);
            assert!(matches!(&m.args[0], AbstractTreeNode::Data(DataNode::Text(t)) if t == "a"));
            assert!(matches!(&m.args[1], AbstractTreeNode::Literal(l) if l == "b"));
        }
        _ => panic!("expected a module node"),
    }
}

#[test]
fn argument_errors_are_structural() {
    let err = parse("say 'a', .").unwrap_err();
    assert_eq!(err.expected, Expected::Argument);
    assert_eq!(err.found.as_deref(), Some("."));
}

#[test]
fn timeout_errors_are_structural() {
    let err = parse("say timeout.").unwrap_err();
    assert_eq!(err.expected, Expected::TimeoutValue);
    assert_eq!(err.found.as_deref(), Some("."));

    let err = parse("say timeout 5.").unwrap_err();
    assert_eq!(err.expected, Expected::TimeoutUnit);
    assert_eq!(err.found.as_deref(), Some("."));
}

#[test]
fn platform_errors_are_structural() {
    let err = parse("say on.").unwrap_err();
    assert_eq!(err.expected, Expected::Platform);
    assert_eq!(err.found.as_deref(), Some("."));
}

#[test]
fn fractional_timeout_values_are_kept_exactly() {
    let nodes = parse("say timeout 2.50 sec.").unwrap();
    let found = nodes.iter().any(|n| matches!(
        n,
        AbstractTreeNode::Signature(SignatureNode::Timeout(v, u))
            if *v == Number { mantissa: 250, scale: 2 } && u == "sec"
    ));
    assert!(found);
}

#[test]
fn number_parsing_is_exact() {
    assert_eq!(Number::parse("10"), Some(Number { mantissa: 10, scale: 0 }));
    assert_eq!(Number::parse("3.5"), Some(Number { mantissa: 35, scale: 1 }));
    assert_eq!(Number::parse("x"), None);
    assert_eq!(Number::parse("5."), None);
    assert_eq!(Number::parse(""), None);
}

#[test]
fn parser_degrades_errors_to_no_nodes() {
    assert_eq!(parser("say 'hi'").len(), 0);
    assert!(parser("say 'hi'.").len() > 0);
}

#[test]
fn trailing_input_after_terminator_is_ignored() {
    let nodes = parse("say 'hi'. and then some").unwrap();
    assert_eq!(nodes.len(), 1);
}
