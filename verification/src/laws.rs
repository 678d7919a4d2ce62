//! Proved laws of the serializer: what the rendering contracts entail for
//! padding, line wrapping and whitespace preservation.

use vstd::prelude::*;
use crate::chars::{is_name_char, is_xml_space, lemma_spaces_len, spaces};
use crate::config::{Config, EntityMode};
use crate::escape::{is_reserved, lemma_escape_standard_identity, spec_escape_char};
use crate::model::{Document, Element, Node};
use crate::parser::{is_self_closing_doc, self_closing_shape};
use crate::render::{
    has_text_child, ind_width, spec_attrs_inline, spec_block_element, spec_inline_children,
    spec_inline_element, spec_inline_node, spec_render_document, spec_start_oneline,
    spec_start_tag, spec_start_wrapped, spec_wraps,
};

verus! {

/// Round trip for a childless, attributeless document: its rendered text
/// is a single self-closing tag, an input on which [`crate::parser::parse`]
/// owes success, an empty tree, and a root name of the same shape.
/// Together with [`lemma_self_closing_name_unique`] this gives the
/// idempotence and content-preservation laws for this family: parsing the
/// rendered text yields a document with the same root name, attributes
/// and children, which renders to the same text again.
pub proof fn lemma_roundtrip_self_closing(d: Document, c: Config)
    requires
        d.wf(),
        d.prolog@.len() == 0,
        d.epilog@.len() == 0,
        d.root.attrs@.len() == 0,
        d.root.children@.len() == 0,
    ensures
        self_closing_shape(
            spec_render_document(d, c),
            d.root.name@,
            1 + d.root.name@.len() + c.end_pad as int,
        ),
        is_self_closing_doc(spec_render_document(d, c)),
{
    let nm = d.root.name@;
    let n = nm.len() as int;
    let pad = c.end_pad as int;
    let o = seq!['<'] + nm + spaces(c.end_pad as nat) + seq!['/', '>'] + seq!['\n'];
    let e = 1 + n + pad;
    lemma_spaces_len(c.end_pad as nat);
    assert(!has_text_child(d.root));
    assert(ind_width(c, 0) == 0);
    assert(spaces(0) =~= Seq::<char>::empty());
    assert(spec_render_document(d, c) =~= o);
    assert(o.subrange(1, 1 + n) =~= nm);
    assert forall|k: int| 1 + n <= k < e implies is_xml_space(#[trigger] o[k]) by {
        assert(o[k] == spaces(c.end_pad as nat)[k - 1 - n]);
    }
    assert(o[e] == '/');
    assert(o[e + 1] == '>');
    assert forall|k: int| e + 2 <= k < o.len() implies is_xml_space(#[trigger] o[k]) by {
        assert(o[k] == '\n');
    }
    assert(self_closing_shape(o, nm, e));
}

proof fn lemma_self_closing_not_shorter(
    t: Seq<char>,
    nm1: Seq<char>,
    e1: int,
    nm2: Seq<char>,
    e2: int,
)
    requires
        self_closing_shape(t, nm1, e1),
        self_closing_shape(t, nm2, e2),
    ensures
        nm1.len() >= nm2.len(),
{
    if nm1.len() < nm2.len() {
        let n1 = nm1.len() as int;
        assert(t.subrange(1, 1 + nm2.len() as int)[n1] == t[1 + n1]);
        assert(nm2[n1] == t[1 + n1]);
        assert(is_name_char(nm2[n1]));
        if 1 + n1 < e1 {
            assert(is_xml_space(t[1 + n1]));
        } else {
            assert(t[1 + n1] == '/');
        }
        assert(false);
    }
}

/// A self-closing text determines its tag name: two readings of the same
/// text name the same root.
pub proof fn lemma_self_closing_name_unique(
    t: Seq<char>,
    nm1: Seq<char>,
    e1: int,
    nm2: Seq<char>,
    e2: int,
)
    requires
        self_closing_shape(t, nm1, e1),
        self_closing_shape(t, nm2, e2),
    ensures
        nm1 == nm2,
{
    lemma_self_closing_not_shorter(t, nm1, e1, nm2, e2);
    lemma_self_closing_not_shorter(t, nm2, e2, nm1, e1);
    assert(nm1 =~= nm2);
}

/// Self-close padding: a childless element whose start tag is not
/// wrapped renders as its name and attributes followed by exactly
/// `end_pad` spaces and the self-close marker.
pub proof fn lemma_self_close_padding(e: Element, c: Config, depth: nat)
    requires
        e.children@.len() == 0,
        !spec_wraps(e, c, depth),
    ensures
        spec_block_element(e, c, depth) == spaces(ind_width(c, depth)) + seq!['<'] + e.name@
            + spec_attrs_inline(e.attrs@, c) + spaces(c.end_pad as nat) + seq!['/', '>'],
{
    assert(!has_text_child(e));
    assert(spec_block_element(e, c, depth) =~= spaces(ind_width(c, depth)) + seq!['<'] + e.name@
        + spec_attrs_inline(e.attrs@, c) + spaces(c.end_pad as nat) + seq!['/', '>']);
}

/// Line-length contract at the start tag: an element with attributes
/// renders its start tag wrapped, each attribute alone on its own line
/// one level deeper, exactly when the one-line form, indentation
/// included, would exceed the configured width.
pub proof fn lemma_wrap_iff_too_long(e: Element, c: Config, depth: nat)
    requires
        e.attrs@.len() > 0,
    ensures
        spec_start_oneline(e, c, depth).len() > c.max_line_length ==> spec_start_tag(e, c, depth)
            == spec_start_wrapped(e, c, depth),
        spec_start_oneline(e, c, depth).len() <= c.max_line_length ==> spec_start_tag(e, c, depth)
            == spec_start_oneline(e, c, depth),
{
}

/// Entity-mode policy: the standard mode escapes exactly the minimal
/// reserved set and leaves every other character unchanged; the hex mode
/// escapes the reserved set and, in addition, exactly the non-ASCII and
/// non-printable characters, all as hexadecimal references.
pub proof fn lemma_entity_modes(c: char, in_attr: bool)
    ensures
        is_reserved(c, in_attr) ==> spec_escape_char(c, in_attr, EntityMode::Standard)
            == crate::escape::named_entity(c),
        !is_reserved(c, in_attr) ==> spec_escape_char(c, in_attr, EntityMode::Standard) == seq![c],
        is_reserved(c, in_attr) || crate::escape::needs_hex(c) ==> spec_escape_char(
            c,
            in_attr,
            EntityMode::Hex,
        ) == crate::escape::spec_hex_ref(c),
        !is_reserved(c, in_attr) && !crate::escape::needs_hex(c) ==> spec_escape_char(
            c,
            in_attr,
            EntityMode::Hex,
        ) == seq![c],
{
}

/// Whitespace preservation: when text is not re-flowed, an element whose
/// single child is a text node renders that text between its tags with
/// every character in place; under the standard entity mode, text free of
/// reserved characters is emitted byte for byte.
pub proof fn lemma_text_preserved(e: Element, c: Config, depth: nat, t: Vec<char>)
    requires
        !c.indent_text_nodes,
        c.entity_mode is Standard,
        e.children@ == seq![Node::Text(t)],
        forall|i: int| 0 <= i < t@.len() ==> !is_reserved(#[trigger] t@[i], false),
    ensures
        spec_block_element(e, c, depth) == spaces(ind_width(c, depth)) + seq!['<'] + e.name@
            + spec_attrs_inline(e.attrs@, c) + seq!['>'] + t@ + seq!['<', '/'] + e.name@
            + seq!['>'],
{
    assert(e.children@[0] is Text);
    assert(has_text_child(e));
    assert(spec_inline_children(e.children@, c) =~= spec_inline_children(
        e.children@.drop_last(),
        c,
    ) + spec_inline_node(Node::Text(t), c));
    assert(e.children@.drop_last() =~= Seq::<Node>::empty());
    lemma_escape_standard_identity(t@, false);
    assert(spec_inline_node(Node::Text(t), c) == t@);
    assert(spec_block_element(e, c, depth) =~= spaces(ind_width(c, depth))
        + spec_inline_element(e, c));
    assert(spec_block_element(e, c, depth) =~= spaces(ind_width(c, depth)) + seq!['<'] + e.name@
        + spec_attrs_inline(e.attrs@, c) + seq!['>'] + t@ + seq!['<', '/'] + e.name@ + seq!['>']);
}

} // verus!
