use xml_lint::config::{Config, EntityMode};
use xml_lint::model::{Element, Node};
use xml_lint::parser::parse;
use xml_lint::render::render;

fn eq_element(a: &Element, b: &Element) -> bool {
    if a.name != b.name || a.attrs.len() != b.attrs.len() || a.children.len() != b.children.len() {
        return false;
    }
    for (x, y) in a.attrs.iter().zip(b.attrs.iter()) {
        if x.name != y.name || x.value != y.value {
            return false;
        }
    }
    a.children.iter().zip(b.children.iter()).all(|(x, y)| eq_node(x, y))
}

fn eq_node(a: &Node, b: &Node) -> bool {
    match (a, b) {
        (Node::Element(x), Node::Element(y)) => eq_element(x, y),
        (Node::Text(x), Node::Text(y)) => x == y,
        (Node::Comment(x), Node::Comment(y)) => x == y,
        (Node::CData(x), Node::CData(y)) => x == y,
        (
            Node::ProcessingInstruction { target: xt, data: xd },
            Node::ProcessingInstruction { target: yt, data: yd },
        ) => xt == yt && xd == yd,
        (Node::Doctype(x), Node::Doctype(y)) => x == y,
        _ => false,
    }
}

const SAMPLES: &[&str] = &[
    "<a/>",
    "<a><b/><c x='1'/></a>",
    "<a>text with  spaces</a>",
    "<a>one<b/>two</a>",
    "<!DOCTYPE d>\n<a><![CDATA[q]]><b>t</b></a>",
    "<r long=\"aaaaaaaaaaaaaaaaaaaaaaaaaaaaaa\" other=\"bbbbbbbbbbbbbbbbbbbbbbbbbbbbbb\" \
     third=\"cccccccccccccccccccccccccccccc\" fourth=\"dddddddddddddddddddddddddddddd\"><e/></r>",
    "  <a>\n  <b>&lt;kept&gt;</b> <c>\t</c>\n  </a>  ",
    "<a>&#233; and &#xE9;</a>",
    "<a/><!-- trailing --><?pi tail?>",
];

fn idempotent_under(c: &Config) {
    for x in SAMPLES {
        let once = render(&parse(x).expect("must parse"), c);
        let twice = render(&parse(&once).expect("canonical text must parse"), c);
        assert_eq!(once, twice, "not idempotent for {x}");
    }
}

#[test]
fn render_is_idempotent_with_defaults() {
    idempotent_under(&Config::default());
}

#[test]
fn render_is_idempotent_with_hex_entities() {
    idempotent_under(&Config::default().with_entity_mode(EntityMode::Hex));
}

#[test]
fn render_is_idempotent_with_reflow() {
    idempotent_under(&Config::default().with_indent_text_nodes(true).with_max_line_length(20));
}

#[test]
fn render_is_idempotent_with_tight_lines() {
    idempotent_under(&Config::default().with_max_line_length(8).with_end_pad(0));
}

#[test]
fn roundtrip_preserves_content() {
    let c = Config::default();
    for x in SAMPLES {
        let doc = parse(x).expect("must parse");
        let out = render(&doc, &c);
        let doc2 = parse(&out).expect("canonical text must parse");
        assert!(eq_element(&doc.root, &doc2.root), "content changed for {x}");
        assert_eq!(doc.prolog.len(), doc2.prolog.len());
        assert_eq!(doc.epilog.len(), doc2.epilog.len());
    }
}

#[test]
fn roundtrip_preserves_content_with_hex_entities() {
    let c = Config::default().with_entity_mode(EntityMode::Hex);
    let doc = parse("<a x=\"é &amp; ß\">ünïcode &lt;text&gt;</a>").expect("must parse");
    let out = render(&doc, &c);
    let doc2 = parse(&out).expect("canonical text must parse");
    assert!(eq_element(&doc.root, &doc2.root));
}
