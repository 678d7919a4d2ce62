use xml_lint::model::{Attr, Document, Element, Node};
use xml_lint::parser::parse;

fn chars(s: &str) -> Vec<char> {
    s.chars().collect()
}

fn leaf(name: &str) -> Element {
    Element { name: chars(name), attrs: Vec::new(), children: Vec::new() }
}

#[test]
fn parsed_documents_are_well_formed() {
    let doc = parse("<!DOCTYPE d>\n<a x=\"1\"><b>t</b><!-- c --></a>").expect("must parse");
    assert!(doc.is_well_formed());
}

#[test]
fn hand_built_document_checks_out() {
    let mut root = leaf("a");
    root.attrs.push(Attr { name: chars("x"), value: chars("1") });
    root.children.push(Node::Element(leaf("b")));
    root.children.push(Node::Text(chars("some text")));
    let doc = Document { prolog: Vec::new(), root, epilog: Vec::new() };
    assert!(doc.is_well_formed());
}

#[test]
fn empty_name_is_rejected() {
    let doc = Document { prolog: Vec::new(), root: leaf(""), epilog: Vec::new() };
    assert!(!doc.is_well_formed());
}

#[test]
fn bad_name_start_is_rejected() {
    let doc = Document { prolog: Vec::new(), root: leaf("1a"), epilog: Vec::new() };
    assert!(!doc.is_well_formed());
}

#[test]
fn duplicate_attribute_names_are_rejected() {
    let mut root = leaf("a");
    root.attrs.push(Attr { name: chars("x"), value: chars("1") });
    root.attrs.push(Attr { name: chars("x"), value: chars("2") });
    let doc = Document { prolog: Vec::new(), root, epilog: Vec::new() };
    assert!(!doc.is_well_formed());
}

#[test]
fn unsafe_cdata_is_rejected() {
    let mut root = leaf("a");
    root.children.push(Node::CData(chars("x]]>y")));
    let doc = Document { prolog: Vec::new(), root, epilog: Vec::new() };
    assert!(!doc.is_well_formed());
}

#[test]
fn comment_with_terminator_is_rejected() {
    let mut root = leaf("a");
    root.children.push(Node::Comment(chars("x--> y")));
    let doc = Document { prolog: Vec::new(), root, epilog: Vec::new() };
    assert!(!doc.is_well_formed());
}

#[test]
fn doctype_after_root_is_rejected() {
    let doc = Document {
        prolog: Vec::new(),
        root: leaf("a"),
        epilog: vec![Node::Doctype(chars(" d"))],
    };
    assert!(!doc.is_well_formed());
}
