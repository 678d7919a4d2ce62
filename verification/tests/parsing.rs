use xml_lint::error::ErrorKind;
use xml_lint::model::Node;
use xml_lint::parser::parse;

fn s(v: &Vec<char>) -> String {
    v.iter().collect()
}

#[test]
fn duplicate_attribute_rejected() {
    let err = parse("<a x=\"1\" x=\"2\"/>").err().expect("must fail");
    match err.kind {
        ErrorKind::DuplicateAttribute { element, name } => {
            assert_eq!(s(&element), "a");
            assert_eq!(s(&name), "x");
        },
        k => panic!("wrong kind: {:?}", k),
    }
}

#[test]
fn mismatched_tag_rejected() {
    let err = parse("<a><b></a></b>").err().expect("must fail");
    match err.kind {
        ErrorKind::MismatchedTag { expected, found } => {
            assert_eq!(s(&expected), "b");
            assert_eq!(s(&found), "a");
        },
        k => panic!("wrong kind: {:?}", k),
    }
}

#[test]
fn unclosed_element_rejected() {
    let err = parse("<a><b></b>").err().expect("must fail");
    match err.kind {
        ErrorKind::UnclosedElement { name } => {
            assert_eq!(s(&name), "a");
        },
        k => panic!("wrong kind: {:?}", k),
    }
}

#[test]
fn no_root_element_rejected() {
    let err = parse("").err().expect("must fail");
    assert!(matches!(err.kind, ErrorKind::NoRootElement));
    let err = parse("   ").err().expect("must fail");
    assert!(matches!(err.kind, ErrorKind::NoRootElement));
    let err = parse("<!-- only a comment -->").err().expect("must fail");
    assert!(matches!(err.kind, ErrorKind::NoRootElement));
}

#[test]
fn multiple_roots_rejected() {
    let err = parse("<a/><b/>").err().expect("must fail");
    assert!(matches!(err.kind, ErrorKind::MultipleRoots));
}

#[test]
fn malformed_entity_rejected() {
    let err = parse("<a>&nosuch;</a>").err().expect("must fail");
    assert!(matches!(err.kind, ErrorKind::MalformedEntity));
    assert_eq!(err.offset, 3);
    let err = parse("<a>&#xZZ;</a>").err().expect("must fail");
    assert!(matches!(err.kind, ErrorKind::MalformedEntity));
    let err = parse("<a>&#1114112;</a>").err().expect("must fail");
    assert!(matches!(err.kind, ErrorKind::MalformedEntity));
}

#[test]
fn entities_are_decoded() {
    let doc = parse("<a>&#65;&#x41;&amp;&lt;&gt;&quot;&apos;</a>").expect("must parse");
    assert_eq!(doc.root.children.len(), 1);
    match &doc.root.children[0] {
        Node::Text(t) => assert_eq!(s(t), "AA&<>\"'"),
        _ => panic!("expected text"),
    }
}

#[test]
fn attributes_are_parsed_in_order() {
    let doc = parse("<a x=\"1\" y='2'/>").expect("must parse");
    assert_eq!(s(&doc.root.name), "a");
    assert_eq!(doc.root.attrs.len(), 2);
    assert_eq!(s(&doc.root.attrs[0].name), "x");
    assert_eq!(s(&doc.root.attrs[0].value), "1");
    assert_eq!(s(&doc.root.attrs[1].name), "y");
    assert_eq!(s(&doc.root.attrs[1].value), "2");
}

#[test]
fn whitespace_only_text_is_dropped() {
    let doc = parse("<a>\n  <b/>\n</a>").expect("must parse");
    assert_eq!(doc.root.children.len(), 1);
    match &doc.root.children[0] {
        Node::Element(e) => assert_eq!(s(&e.name), "b"),
        _ => panic!("expected element"),
    }
}

#[test]
fn significant_text_is_kept_verbatim() {
    let doc = parse("<a>  hello  world  </a>").expect("must parse");
    assert_eq!(doc.root.children.len(), 1);
    match &doc.root.children[0] {
        Node::Text(t) => assert_eq!(s(t), "  hello  world  "),
        _ => panic!("expected text"),
    }
}

#[test]
fn prolog_and_cdata_are_parsed() {
    let doc = parse("<!DOCTYPE html>\n<!-- c -->\n<?p d?>\n<a><![CDATA[x<y]]></a>")
        .expect("must parse");
    assert_eq!(doc.prolog.len(), 3);
    assert!(matches!(&doc.prolog[0], Node::Doctype(_)));
    match &doc.prolog[1] {
        Node::Comment(t) => assert_eq!(s(t), " c "),
        _ => panic!("expected comment"),
    }
    match &doc.prolog[2] {
        Node::ProcessingInstruction { target, data } => {
            assert_eq!(s(target), "p");
            assert_eq!(s(data), "d");
        },
        _ => panic!("expected processing instruction"),
    }
    assert_eq!(doc.root.children.len(), 1);
    match &doc.root.children[0] {
        Node::CData(t) => assert_eq!(s(t), "x<y"),
        _ => panic!("expected cdata"),
    }
}

#[test]
fn bad_name_start_rejected() {
    let err = parse("<1a/>").err().expect("must fail");
    assert!(matches!(err.kind, ErrorKind::LexError));
}

#[test]
fn text_outside_root_rejected() {
    let err = parse("<a/>junk").err().expect("must fail");
    assert!(matches!(err.kind, ErrorKind::LexError));
}

#[test]
fn unterminated_comment_rejected() {
    let err = parse("<!-- never ends <a/>").err().expect("must fail");
    assert!(matches!(err.kind, ErrorKind::LexError));
}

#[test]
fn error_offsets_are_byte_offsets() {
    let err = parse("<aé>&bad;</aé>").err().expect("must fail");
    assert!(matches!(err.kind, ErrorKind::MalformedEntity));
    assert_eq!(err.offset, 5);
}
