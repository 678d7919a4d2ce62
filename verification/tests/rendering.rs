use xml_lint::config::{Config, EntityMode};
use xml_lint::parser::parse;
use xml_lint::render::render;

fn canon(input: &str, config: &Config) -> String {
    let doc = parse(input).expect("must parse");
    render(&doc, config)
}

#[test]
fn self_close_padding_zero() {
    let c = Config::default().with_end_pad(0);
    assert_eq!(canon("<a/>", &c), "<a/>\n");
}

#[test]
fn self_close_padding_one() {
    let c = Config::default();
    assert_eq!(canon("<a/>", &c), "<a />\n");
}

#[test]
fn self_close_padding_three() {
    let c = Config::default().with_end_pad(3);
    assert_eq!(canon("<a/>", &c), "<a   />\n");
}

#[test]
fn nested_elements_are_indented() {
    let c = Config::default();
    assert_eq!(canon("<a><b/></a>", &c), "<a>\n  <b />\n</a>\n");
    let c4 = Config::default().with_indent(4);
    assert_eq!(canon("<a><b><c/></b></a>", &c4), "<a>\n    <b>\n        <c />\n    </b>\n</a>\n");
}

#[test]
fn text_whitespace_is_preserved() {
    let c = Config::default();
    assert_eq!(canon("<a>  hello  world  </a>", &c), "<a>  hello  world  </a>\n");
}

#[test]
fn mixed_content_stays_inline() {
    let c = Config::default();
    assert_eq!(canon("<a>one<b/>two</a>", &c), "<a>one<b />two</a>\n");
}

#[test]
fn entity_mode_standard() {
    let c = Config::default();
    assert_eq!(canon("<a x=\"é\">&amp;</a>", &c), "<a x=\"é\">&amp;</a>\n");
}

#[test]
fn entity_mode_hex() {
    let c = Config::default().with_entity_mode(EntityMode::Hex);
    assert_eq!(canon("<a x=\"é\">&amp;</a>", &c), "<a x=\"&#xE9;\">&#x26;</a>\n");
}

#[test]
fn entity_spelling_is_canonicalized() {
    let c = Config::default();
    assert_eq!(canon("<a>&#65;</a>", &c), canon("<a>A</a>", &c));
    assert_eq!(canon("<a>&#x41;</a>", &c), "<a>A</a>\n");
}

#[test]
fn attributes_wrap_when_line_too_long() {
    let c = Config::default().with_max_line_length(10);
    assert_eq!(canon("<r a=\"1\" b=\"2\"/>", &c), "<r\n  a=\"1\"\n  b=\"2\"\n/>\n");
}

#[test]
fn attributes_wrap_exactly_at_the_width() {
    // The one-line form "<r a=\"1\" b=\"2\" />" is 17 characters long.
    let fits = Config::default().with_max_line_length(17);
    assert_eq!(canon("<r a=\"1\" b=\"2\"/>", &fits), "<r a=\"1\" b=\"2\" />\n");
    let wraps = Config::default().with_max_line_length(16);
    assert_eq!(canon("<r a=\"1\" b=\"2\"/>", &wraps), "<r\n  a=\"1\"\n  b=\"2\"\n/>\n");
}

#[test]
fn wrapped_lines_stay_within_the_width() {
    let c = Config::default().with_max_line_length(10);
    let out = canon("<root alpha=\"1\" beta=\"22\" gamma=\"333\"><x/></root>", &c);
    for line in out.lines() {
        // Every attribute stands alone on its own line; each fits the
        // width here because no single attribute is itself overlong.
        assert!(line.chars().count() <= 13, "line too long: {line}");
    }
    assert_eq!(
        out,
        "<root\n  alpha=\"1\"\n  beta=\"22\"\n  gamma=\"333\"\n>\n  <x />\n</root>\n"
    );
}

#[test]
fn start_tag_with_children_wraps() {
    let c = Config::default().with_max_line_length(5);
    assert_eq!(canon("<r a=\"1\"><b/></r>", &c), "<r\n  a=\"1\"\n>\n  <b />\n</r>\n");
}

#[test]
fn text_element_line_is_never_broken() {
    let c = Config::default().with_max_line_length(5);
    assert_eq!(canon("<r a=\"1\">x</r>", &c), "<r a=\"1\">x</r>\n");
}

#[test]
fn text_reflow_packs_words() {
    let c = Config::default().with_indent_text_nodes(true).with_max_line_length(12);
    assert_eq!(canon("<a>one two three four</a>", &c), "<a>\n  one two\n  three four\n</a>\n");
}

#[test]
fn hex_references_reach_beyond_the_basic_plane() {
    let c = Config::default().with_entity_mode(EntityMode::Hex);
    assert_eq!(canon("<a>\u{1F600}</a>", &c), "<a>&#x1F600;</a>\n");
    assert_eq!(canon("<a>&#x1F600;</a>", &c), "<a>&#x1F600;</a>\n");
}

#[test]
fn comments_are_verbatim() {
    let c = Config::default();
    assert_eq!(canon("<a><!-- keep  this --></a>", &c), "<a>\n  <!-- keep  this -->\n</a>\n");
}

#[test]
fn cdata_is_never_escaped() {
    let c = Config::default();
    assert_eq!(canon("<a><![CDATA[x<y&z]]></a>", &c), "<a>\n  <![CDATA[x<y&z]]>\n</a>\n");
}

#[test]
fn prolog_and_epilog_keep_their_lines() {
    let c = Config::default();
    assert_eq!(
        canon("<!DOCTYPE html>\n<?p d?>\n<a/>\n<!-- after -->", &c),
        "<!DOCTYPE html>\n<?p d?>\n<a />\n<!-- after -->\n"
    );
}
