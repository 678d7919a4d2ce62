//! The serializer / pretty-printer: walks the tree and emits canonical
//! text under a [`Config`].
//!
//! Every specification function here defines the output exactly; the
//! executable functions are proved to emit it character for character.
//!
//! Line positions and indentation widths saturate at the machine limit, so
//! that rendering is total for every tree.

use vstd::prelude::*;
use crate::chars::{push_spaces, spaces, chars_to_string, is_xml_space, xml_space};
use crate::config::Config;
use crate::escape::{escape_into, spec_escape};
use crate::model::{Attr, Document, Element, Node};

verus! {

/// `a + b`, saturating at the machine limit.
pub open spec fn cap_add(a: nat, b: nat) -> nat {
    if a + b > usize::MAX {
        usize::MAX as nat
    } else {
        a + b
    }
}

/// `a * b`, saturating at the machine limit.
pub open spec fn cap_mul(a: nat, b: nat) -> nat {
    if a * b > usize::MAX {
        usize::MAX as nat
    } else {
        a * b
    }
}

/// One more nesting level, saturating at the machine limit.
pub open spec fn bump(depth: nat) -> nat {
    cap_add(depth, 1)
}

/// The indentation width of nesting level `depth`.
pub open spec fn ind_width(c: Config, depth: nat) -> nat {
    cap_mul(c.indent as nat, depth)
}

pub fn cap_add_exec(a: usize, b: usize) -> (r: usize)
    ensures
        r as nat == cap_add(a as nat, b as nat),
{
    if a <= usize::MAX - b {
        a + b
    } else {
        usize::MAX
    }
}

pub fn cap_mul_exec(a: usize, b: usize) -> (r: usize)
    ensures
        r as nat == cap_mul(a as nat, b as nat),
{
    if a == 0 {
        0
    } else if b <= usize::MAX / a {
        proof {
            let q = (usize::MAX as int) / (a as int);
            let rr = (usize::MAX as int) % (a as int);
            vstd::arithmetic::div_mod::lemma_fundamental_div_mod(usize::MAX as int, a as int);
            assert((a as int) * (b as int) <= usize::MAX as int) by (nonlinear_arith)
                requires
                    0 < a as int,
                    b as int <= q,
                    usize::MAX as int == (a as int) * q + rr,
                    rr >= 0,
            ;
        }
        a * b
    } else {
        proof {
            let q = (usize::MAX as int) / (a as int);
            let rr = (usize::MAX as int) % (a as int);
            vstd::arithmetic::div_mod::lemma_fundamental_div_mod(usize::MAX as int, a as int);
            assert((a as int) * (b as int) > usize::MAX as int) by (nonlinear_arith)
                requires
                    0 < a as int,
                    b as int >= q + 1,
                    usize::MAX as int == (a as int) * q + rr,
                    rr < a as int,
            ;
        }
        usize::MAX
    }
}

fn bump_exec(depth: usize) -> (r: usize)
    ensures
        r as nat == bump(depth as nat),
{
    cap_add_exec(depth, 1)
}

/// One attribute in the one-line form: a separating space, the name, `="`,
/// the escaped value, `"`.
pub open spec fn spec_attr_inline(a: Attr, c: Config) -> Seq<char> {
    seq![' '] + a.name@ + seq!['=', '"'] + spec_escape(a.value@, true, c.entity_mode) + seq!['"']
}

/// All attributes in the one-line form, in document order.
pub open spec fn spec_attrs_inline(attrs: Seq<Attr>, c: Config) -> Seq<char>
    decreases attrs.len(),
{
    if attrs.len() == 0 {
        Seq::empty()
    } else {
        spec_attrs_inline(attrs.drop_last(), c) + spec_attr_inline(attrs.last(), c)
    }
}

/// One attribute in the wrapped form: alone on its own line, one level
/// deeper than the tag.
pub open spec fn spec_attr_wrapped(a: Attr, c: Config, depth: nat) -> Seq<char> {
    spaces(ind_width(c, depth)) + a.name@ + seq!['=', '"'] + spec_escape(
        a.value@,
        true,
        c.entity_mode,
    ) + seq!['"', '\n']
}

/// All attributes in the wrapped form, in document order.
pub open spec fn spec_attrs_wrapped(attrs: Seq<Attr>, c: Config, depth: nat) -> Seq<char>
    decreases attrs.len(),
{
    if attrs.len() == 0 {
        Seq::empty()
    } else {
        spec_attrs_wrapped(attrs.drop_last(), c, depth) + spec_attr_wrapped(attrs.last(), c, depth)
    }
}

/// The one-line start tag of `e` at `depth`, indentation included: for a
/// childless element `<name attrs` then `end_pad` spaces then `/>`, else
/// `<name attrs>`.
pub open spec fn spec_start_oneline(e: Element, c: Config, depth: nat) -> Seq<char> {
    let base = spaces(ind_width(c, depth)) + seq!['<'] + e.name@ + spec_attrs_inline(e.attrs@, c);
    if e.children@.len() == 0 {
        base + spaces(c.end_pad as nat) + seq!['/', '>']
    } else {
        base + seq!['>']
    }
}

/// The start tag of `e` is wrapped: it has attributes and its one-line
/// form would exceed the line width.
pub open spec fn spec_wraps(e: Element, c: Config, depth: nat) -> bool {
    e.attrs@.len() > 0 && spec_start_oneline(e, c, depth).len() > c.max_line_length
}

/// The wrapped start tag: `<name` on the first line, each attribute alone
/// on its own line one level deeper, and the closing marker on its own
/// line at the tag's depth.
pub open spec fn spec_start_wrapped(e: Element, c: Config, depth: nat) -> Seq<char> {
    spaces(ind_width(c, depth)) + seq!['<'] + e.name@ + seq!['\n'] + spec_attrs_wrapped(
        e.attrs@,
        c,
        bump(depth),
    ) + spaces(ind_width(c, depth)) + (if e.children@.len() == 0 {
        seq!['/', '>']
    } else {
        seq!['>']
    })
}

/// The start tag of `e`: one line if it fits, wrapped otherwise.
pub open spec fn spec_start_tag(e: Element, c: Config, depth: nat) -> Seq<char> {
    if spec_wraps(e, c, depth) {
        spec_start_wrapped(e, c, depth)
    } else {
        spec_start_oneline(e, c, depth)
    }
}

/// `e` has at least one text child.
pub open spec fn has_text_child(e: Element) -> bool {
    exists|i: int| 0 <= i < e.children@.len() && (#[trigger] e.children@[i]) is Text
}

/// The verbatim body of a comment, CDATA section, processing instruction
/// or doctype, without indentation.
pub open spec fn spec_misc(n: Node) -> Seq<char> {
    match n {
        Node::Comment(t) => seq!['<', '!', '-', '-'] + t@ + seq!['-', '-', '>'],
        Node::CData(t) => seq!['<', '!', '[', 'C', 'D', 'A', 'T', 'A', '['] + t@ + seq![']', ']', '>'],
        Node::ProcessingInstruction { target, data } => if data@.len() == 0 {
            seq!['<', '?'] + target@ + seq!['?', '>']
        } else {
            seq!['<', '?'] + target@ + seq![' '] + data@ + seq!['?', '>']
        },
        Node::Doctype(t) => seq!['<', '!', 'D', 'O', 'C', 'T', 'Y', 'P', 'E'] + t@ + seq!['>'],
        _ => Seq::empty(),
    }
}

/// One node rendered inline: no indentation and no inserted line breaks,
/// used below an element that has text content, where any inserted
/// whitespace would be significant.
pub open spec fn spec_inline_node(n: Node, c: Config) -> Seq<char>
    decreases n, 1nat,
{
    match n {
        Node::Element(e) => spec_inline_element(e, c),
        Node::Text(t) => spec_escape(t@, false, c.entity_mode),
        _ => spec_misc(n),
    }
}

/// The children of an inline element, back to back.
pub open spec fn spec_inline_children(ns: Seq<Node>, c: Config) -> Seq<char>
    decreases ns, 2nat, ns.len(),
{
    if ns.len() == 0 {
        Seq::empty()
    } else {
        spec_inline_children(ns.drop_last(), c) + spec_inline_node(ns.last(), c)
    }
}

/// A whole element rendered inline. The start tag is never wrapped: the
/// element stands inside significant text, so its line cannot be broken.
pub open spec fn spec_inline_element(e: Element, c: Config) -> Seq<char>
    decreases e, 0nat,
{
    let open = seq!['<'] + e.name@ + spec_attrs_inline(e.attrs@, c);
    if e.children@.len() == 0 {
        open + spaces(c.end_pad as nat) + seq!['/', '>']
    } else {
        open + seq!['>'] + spec_inline_children(e.children@, c) + seq!['<', '/'] + e.name@
            + seq!['>']
    }
}

/// The position after the word that starts at `i`: the first position at
/// or after `i` that is out of range or holds whitespace.
pub open spec fn word_end(s: Seq<char>, i: int) -> int
    decreases s.len() - i,
{
    if i < 0 || i >= s.len() || is_xml_space(s[i]) {
        i
    } else {
        word_end(s, i + 1)
    }
}

pub proof fn lemma_word_end(s: Seq<char>, i: int)
    requires
        0 <= i <= s.len(),
    ensures
        i <= word_end(s, i) <= s.len(),
        forall|j: int| i <= j < word_end(s, i) ==> !is_xml_space(#[trigger] s[j]),
        word_end(s, i) == s.len() || is_xml_space(s[word_end(s, i)]),
        i < s.len() && !is_xml_space(s[i]) ==> word_end(s, i) > i,
    decreases s.len() - i,
{
    if i < s.len() && !is_xml_space(s[i]) {
        lemma_word_end(s, i + 1);
    }
}

pub proof fn lemma_word_end_eq(s: Seq<char>, i: int, q: int)
    requires
        0 <= i <= q <= s.len(),
        forall|j: int| i <= j < q ==> !is_xml_space(#[trigger] s[j]),
        q == s.len() || is_xml_space(s[q]),
    ensures
        word_end(s, i) == q,
    decreases q - i,
{
    if i < q {
        lemma_word_end_eq(s, i + 1, q);
    }
}

/// The words of `s` from position `i` on: the maximal runs of
/// non-whitespace characters, in order.
pub open spec fn words_from(s: Seq<char>, i: int) -> Seq<Seq<char>>
    decreases s.len() - i,
    via words_from_dec
{
    if i < 0 || i >= s.len() {
        Seq::empty()
    } else if is_xml_space(s[i]) {
        words_from(s, i + 1)
    } else {
        seq![s.subrange(i, word_end(s, i))] + words_from(s, word_end(s, i))
    }
}

#[via_fn]
proof fn words_from_dec(s: Seq<char>, i: int) {
    if 0 <= i < s.len() && !is_xml_space(s[i]) {
        lemma_word_end(s, i);
    }
}

/// The re-flowed lines after the first word was placed: each further word
/// is appended to the current line after one space when the line still
/// fits the width, and otherwise starts a new indented line. `cur` is the
/// length of the current line so far.
pub open spec fn pack_rest(ws: Seq<Seq<char>>, c: Config, lineind: nat, cur: nat) -> Seq<char>
    decreases ws.len(),
{
    if ws.len() == 0 {
        Seq::empty()
    } else {
        let w = spec_escape(ws[0], false, c.entity_mode);
        if cur + 1 + w.len() <= c.max_line_length {
            seq![' '] + w + pack_rest(ws.drop_first(), c, lineind, cur + 1 + w.len())
        } else {
            seq!['\n'] + spaces(lineind) + w + pack_rest(
                ws.drop_first(),
                c,
                lineind,
                cap_add(lineind, w.len()),
            )
        }
    }
}

/// Text content re-flowed at `depth`: the words of the text, escaped,
/// greedily packed into indented lines of at most the configured width; a
/// single word longer than the width stands alone on its own line.
pub open spec fn spec_reflow(t: Seq<char>, c: Config, depth: nat) -> Seq<char> {
    let ws = words_from(t, 0);
    let lineind = ind_width(c, depth);
    if ws.len() == 0 {
        Seq::empty()
    } else {
        let w0 = spec_escape(ws[0], false, c.entity_mode);
        spaces(lineind) + w0 + pack_rest(ws.drop_first(), c, lineind, cap_add(lineind, w0.len()))
    }
}

/// One node at block level. An element renders as its block form; text
/// renders re-flowed when `indent_text_nodes` is set and byte-for-byte,
/// without indentation, when it is not; anything else renders verbatim on
/// one indented line.
pub open spec fn spec_block_node(n: Node, c: Config, depth: nat) -> Seq<char>
    decreases n, 1nat,
{
    match n {
        Node::Element(e) => spec_block_element(e, c, depth),
        Node::Text(t) => if c.indent_text_nodes {
            spec_reflow(t@, c, depth)
        } else {
            spec_escape(t@, false, c.entity_mode)
        },
        _ => spaces(ind_width(c, depth)) + spec_misc(n),
    }
}

/// A run of nodes at block level, each followed by a line break.
pub open spec fn spec_block_children(ns: Seq<Node>, c: Config, depth: nat) -> Seq<char>
    decreases ns, 2nat,
{
    if ns.len() == 0 {
        Seq::empty()
    } else {
        spec_block_children(ns.drop_last(), c, depth) + spec_block_node(ns.last(), c, depth)
            + seq!['\n']
    }
}

/// An element at block level. An element with text content, when text is
/// not re-flowed, renders inline on one indented line, since any inserted
/// whitespace would change its content. A childless element renders as a
/// self-closing tag. Any other element renders as a start tag, its
/// children one level deeper, and an end tag at the element's depth.
pub open spec fn spec_block_element(e: Element, c: Config, depth: nat) -> Seq<char>
    decreases e, 3nat,
{
    if !c.indent_text_nodes && has_text_child(e) {
        spaces(ind_width(c, depth)) + spec_inline_element(e, c)
    } else if e.children@.len() == 0 {
        spec_start_tag(e, c, depth)
    } else {
        spec_start_tag(e, c, depth) + seq!['\n'] + spec_block_children(e.children@, c, bump(depth))
            + spaces(ind_width(c, depth)) + seq!['<', '/'] + e.name@ + seq!['>']
    }
}

/// The canonical text of a whole document: the prolog nodes, the root
/// element, and the epilog nodes, each on its own line.
pub open spec fn spec_render_document(d: Document, c: Config) -> Seq<char> {
    spec_block_children(d.prolog@, c, 0) + spec_block_element(d.root, c, 0) + seq!['\n']
        + spec_block_children(d.epilog@, c, 0)
}

/// Appends all characters of `v` to `out`.
pub fn push_all(out: &mut Vec<char>, v: &Vec<char>)
    ensures
        final(out)@ == old(out)@ + v@,
{
    let mut i: usize = 0;
    while i < v.len()
        invariant
            i <= v.len(),
            out@ == old(out)@ + v@.take(i as int),
        decreases v.len() - i,
    {
        out.push(v[i]);
        proof {
            assert(out@ =~= old(out)@ + v@.take(i + 1));
        }
        i = i + 1;
    }
    proof {
        assert(out@ =~= old(out)@ + v@);
    }
}

fn push_attr_inline(out: &mut Vec<char>, a: &Attr, c: &Config)
    ensures
        final(out)@ == old(out)@ + spec_attr_inline(*a, *c),
{
    out.push(' ');
    push_all(out, &a.name);
    out.push('=');
    out.push('"');
    escape_into(out, &a.value, true, c.entity_mode);
    out.push('"');
    proof {
        assert(final(out)@ =~= old(out)@ + spec_attr_inline(*a, *c));
    }
}

fn push_attrs_inline(out: &mut Vec<char>, attrs: &Vec<Attr>, c: &Config)
    ensures
        final(out)@ == old(out)@ + spec_attrs_inline(attrs@, *c),
{
    let mut i: usize = 0;
    while i < attrs.len()
        invariant
            i <= attrs.len(),
            out@ == old(out)@ + spec_attrs_inline(attrs@.take(i as int), *c),
        decreases attrs.len() - i,
    {
        push_attr_inline(out, &attrs[i], c);
        proof {
            assert(attrs@.take(i + 1).drop_last() =~= attrs@.take(i as int));
            assert(out@ =~= old(out)@ + spec_attrs_inline(attrs@.take(i + 1), *c));
        }
        i = i + 1;
    }
    proof {
        assert(attrs@.take(attrs@.len() as int) =~= attrs@);
    }
}

fn push_attr_wrapped(out: &mut Vec<char>, a: &Attr, c: &Config, depth: usize)
    ensures
        final(out)@ == old(out)@ + spec_attr_wrapped(*a, *c, depth as nat),
{
    let w = cap_mul_exec(c.indent, depth);
    push_spaces(out, w);
    push_all(out, &a.name);
    out.push('=');
    out.push('"');
    escape_into(out, &a.value, true, c.entity_mode);
    out.push('"');
    out.push('\n');
    proof {
        assert(final(out)@ =~= old(out)@ + spec_attr_wrapped(*a, *c, depth as nat));
    }
}

fn push_attrs_wrapped(out: &mut Vec<char>, attrs: &Vec<Attr>, c: &Config, depth: usize)
    ensures
        final(out)@ == old(out)@ + spec_attrs_wrapped(attrs@, *c, depth as nat),
{
    let mut i: usize = 0;
    while i < attrs.len()
        invariant
            i <= attrs.len(),
            out@ == old(out)@ + spec_attrs_wrapped(attrs@.take(i as int), *c, depth as nat),
        decreases attrs.len() - i,
    {
        push_attr_wrapped(out, &attrs[i], c, depth);
        proof {
            assert(attrs@.take(i + 1).drop_last() =~= attrs@.take(i as int));
            assert(out@ =~= old(out)@ + spec_attrs_wrapped(attrs@.take(i + 1), *c, depth as nat));
        }
        i = i + 1;
    }
    proof {
        assert(attrs@.take(attrs@.len() as int) =~= attrs@);
    }
}

fn push_start_oneline(out: &mut Vec<char>, e: &Element, c: &Config, depth: usize)
    ensures
        final(out)@ == old(out)@ + spec_start_oneline(*e, *c, depth as nat),
{
    let w = cap_mul_exec(c.indent, depth);
    push_spaces(out, w);
    out.push('<');
    push_all(out, &e.name);
    push_attrs_inline(out, &e.attrs, c);
    if e.children.len() == 0 {
        push_spaces(out, c.end_pad);
        out.push('/');
        out.push('>');
    } else {
        out.push('>');
    }
    proof {
        assert(final(out)@ =~= old(out)@ + spec_start_oneline(*e, *c, depth as nat));
    }
}

fn push_start_tag(out: &mut Vec<char>, e: &Element, c: &Config, depth: usize)
    ensures
        final(out)@ == old(out)@ + spec_start_tag(*e, *c, depth as nat),
{
    let mut t: Vec<char> = Vec::new();
    push_start_oneline(&mut t, e, c, depth);
    proof {
        assert(t@ =~= spec_start_oneline(*e, *c, depth as nat));
    }
    if e.attrs.len() > 0 && t.len() > c.max_line_length {
        let w = cap_mul_exec(c.indent, depth);
        push_spaces(out, w);
        out.push('<');
        push_all(out, &e.name);
        out.push('\n');
        let d2 = bump_exec(depth);
        push_attrs_wrapped(out, &e.attrs, c, d2);
        push_spaces(out, w);
        if e.children.len() == 0 {
            out.push('/');
            out.push('>');
        } else {
            out.push('>');
        }
        proof {
            assert(final(out)@ =~= old(out)@ + spec_start_wrapped(*e, *c, depth as nat));
        }
    } else {
        push_all(out, &t);
    }
}

fn has_text_child_exec(e: &Element) -> (r: bool)
    ensures
        r == has_text_child(*e),
{
    let mut i: usize = 0;
    let mut found = false;
    while i < e.children.len()
        invariant
            i <= e.children.len(),
            found <==> exists|j: int| 0 <= j < i && (#[trigger] e.children@[j]) is Text,
        decreases e.children.len() - i,
    {
        match &e.children[i] {
            Node::Text(_) => {
                found = true;
            },
            _ => {},
        }
        i = i + 1;
    }
    found
}

fn push_misc(out: &mut Vec<char>, n: &Node)
    ensures
        final(out)@ == old(out)@ + spec_misc(*n),
{
    match n {
        Node::Comment(t) => {
            out.push('<');
            out.push('!');
            out.push('-');
            out.push('-');
            push_all(out, t);
            out.push('-');
            out.push('-');
            out.push('>');
            proof {
                assert(final(out)@ =~= old(out)@ + spec_misc(*n));
            }
        },
        Node::CData(t) => {
            out.push('<');
            out.push('!');
            out.push('[');
            out.push('C');
            out.push('D');
            out.push('A');
            out.push('T');
            out.push('A');
            out.push('[');
            push_all(out, t);
            out.push(']');
            out.push(']');
            out.push('>');
            proof {
                assert(final(out)@ =~= old(out)@ + spec_misc(*n));
            }
        },
        Node::ProcessingInstruction { target, data } => {
            out.push('<');
            out.push('?');
            push_all(out, target);
            if data.len() > 0 {
                out.push(' ');
                push_all(out, data);
            }
            out.push('?');
            out.push('>');
            proof {
                assert(final(out)@ =~= old(out)@ + spec_misc(*n));
            }
        },
        Node::Doctype(t) => {
            out.push('<');
            out.push('!');
            out.push('D');
            out.push('O');
            out.push('C');
            out.push('T');
            out.push('Y');
            out.push('P');
            out.push('E');
            push_all(out, t);
            out.push('>');
            proof {
                assert(final(out)@ =~= old(out)@ + spec_misc(*n));
            }
        },
        _ => {
            proof {
                assert(final(out)@ =~= old(out)@ + spec_misc(*n));
            }
        },
    }
}

fn render_inline_node(out: &mut Vec<char>, n: &Node, c: &Config)
    ensures
        final(out)@ == old(out)@ + spec_inline_node(*n, *c),
    decreases *n, 1nat,
{
    match n {
        Node::Element(e) => {
            render_inline_element(out, e, c);
        },
        Node::Text(t) => {
            escape_into(out, t, false, c.entity_mode);
        },
        _ => {
            push_misc(out, n);
        },
    }
}

fn render_inline_children(out: &mut Vec<char>, ns: &Vec<Node>, c: &Config)
    ensures
        final(out)@ == old(out)@ + spec_inline_children(ns@, *c),
    decreases *ns, 2nat,
{
    let mut i: usize = 0;
    while i < ns.len()
        invariant
            i <= ns.len(),
            out@ == old(out)@ + spec_inline_children(ns@.take(i as int), *c),
        decreases ns.len() - i,
    {
        render_inline_node(out, &ns[i], c);
        proof {
            assert(ns@.take(i + 1).drop_last() =~= ns@.take(i as int));
            assert(out@ =~= old(out)@ + spec_inline_children(ns@.take(i + 1), *c));
        }
        i = i + 1;
    }
    proof {
        assert(ns@.take(ns@.len() as int) =~= ns@);
    }
}

fn render_inline_element(out: &mut Vec<char>, e: &Element, c: &Config)
    ensures
        final(out)@ == old(out)@ + spec_inline_element(*e, *c),
    decreases *e, 0nat,
{
    out.push('<');
    push_all(out, &e.name);
    push_attrs_inline(out, &e.attrs, c);
    if e.children.len() == 0 {
        push_spaces(out, c.end_pad);
        out.push('/');
        out.push('>');
        proof {
            assert(final(out)@ =~= old(out)@ + spec_inline_element(*e, *c));
        }
    } else {
        out.push('>');
        render_inline_children(out, &e.children, c);
        out.push('<');
        out.push('/');
        push_all(out, &e.name);
        out.push('>');
        proof {
            assert(final(out)@ =~= old(out)@ + spec_inline_element(*e, *c));
        }
    }
}

/// The views of the word vectors.
pub open spec fn deep_view(ws: Seq<Vec<char>>) -> Seq<Seq<char>> {
    ws.map_values(|v: Vec<char>| v@)
}

fn split_words(t: &Vec<char>) -> (ws: Vec<Vec<char>>)
    ensures
        deep_view(ws@) == words_from(t@, 0),
{
    let mut ws: Vec<Vec<char>> = Vec::new();
    let mut p: usize = 0;
    while p < t.len()
        invariant
            p <= t.len(),
            deep_view(ws@) + words_from(t@, p as int) == words_from(t@, 0),
        decreases t.len() - p,
    {
        if xml_space(t[p]) {
            p = p + 1;
        } else {
            let ghost prev = ws@;
            let mut q: usize = p;
            let mut w: Vec<char> = Vec::new();
            while q < t.len() && !xml_space(t[q])
                invariant
                    p <= q <= t.len(),
                    w@ == t@.subrange(p as int, q as int),
                    forall|j: int| p <= j < q ==> !is_xml_space(#[trigger] t@[j]),
                decreases t.len() - q,
            {
                w.push(t[q]);
                proof {
                    assert(w@ =~= t@.subrange(p as int, q as int + 1));
                }
                q = q + 1;
            }
            proof {
                lemma_word_end_eq(t@, p as int, q as int);
            }
            ws.push(w);
            proof {
                assert(deep_view(ws@) =~= deep_view(prev).push(w@));
                assert(deep_view(ws@) + words_from(t@, q as int) =~= deep_view(prev) + words_from(
                    t@,
                    p as int,
                ));
            }
            p = q;
        }
    }
    proof {
        assert(deep_view(ws@) =~= words_from(t@, 0));
    }
    ws
}

fn render_reflow(out: &mut Vec<char>, t: &Vec<char>, c: &Config, depth: usize)
    ensures
        final(out)@ == old(out)@ + spec_reflow(t@, *c, depth as nat),
{
    let ws = split_words(t);
    let lineind = cap_mul_exec(c.indent, depth);
    if ws.len() == 0 {
        proof {
            assert(final(out)@ =~= old(out)@ + spec_reflow(t@, *c, depth as nat));
        }
    } else {
        push_spaces(out, lineind);
        let mut we: Vec<char> = Vec::new();
        escape_into(&mut we, &ws[0], false, c.entity_mode);
        push_all(out, &we);
        let mut cur: usize = cap_add_exec(lineind, we.len());
        let mut i: usize = 1;
        while i < ws.len()
            invariant
                1 <= i <= ws.len(),
                out@ + pack_rest(deep_view(ws@).skip(i as int), *c, lineind as nat, cur as nat)
                    == old(out)@ + spec_reflow(t@, *c, depth as nat),
                deep_view(ws@) == words_from(t@, 0),
                lineind as nat == ind_width(*c, depth as nat),
            decreases ws.len() - i,
        {
            let ghost rest = deep_view(ws@).skip(i as int);
            let mut we2: Vec<char> = Vec::new();
            escape_into(&mut we2, &ws[i], false, c.entity_mode);
            proof {
                assert(rest[0] == deep_view(ws@)[i as int]);
                assert(rest.drop_first() =~= deep_view(ws@).skip(i + 1));
            }
            let fits = we2.len() < c.max_line_length && cur <= c.max_line_length - 1 - we2.len();
            proof {
                assert(fits == (cur as nat + 1 + we2@.len() <= c.max_line_length as nat));
            }
            if fits {
                out.push(' ');
                push_all(out, &we2);
                cur = cur + 1 + we2.len();
            } else {
                out.push('\n');
                push_spaces(out, lineind);
                push_all(out, &we2);
                cur = cap_add_exec(lineind, we2.len());
            }
            proof {
                assert(out@ + pack_rest(deep_view(ws@).skip(i + 1), *c, lineind as nat, cur as nat)
                    =~= old(out)@ + spec_reflow(t@, *c, depth as nat));
            }
            i = i + 1;
        }
        proof {
            assert(deep_view(ws@).skip(ws@.len() as int) =~= Seq::<Seq<char>>::empty());
            assert(final(out)@ =~= old(out)@ + spec_reflow(t@, *c, depth as nat));
        }
    }
}

fn render_block_node(out: &mut Vec<char>, n: &Node, c: &Config, depth: usize)
    ensures
        final(out)@ == old(out)@ + spec_block_node(*n, *c, depth as nat),
    decreases *n, 1nat,
{
    match n {
        Node::Element(e) => {
            render_block_element(out, e, c, depth);
        },
        Node::Text(t) => {
            if c.indent_text_nodes {
                render_reflow(out, t, c, depth);
            } else {
                escape_into(out, t, false, c.entity_mode);
            }
        },
        _ => {
            let w = cap_mul_exec(c.indent, depth);
            push_spaces(out, w);
            push_misc(out, n);
            proof {
                assert(final(out)@ =~= old(out)@ + spec_block_node(*n, *c, depth as nat));
            }
        },
    }
}

fn render_block_children(out: &mut Vec<char>, ns: &Vec<Node>, c: &Config, depth: usize)
    ensures
        final(out)@ == old(out)@ + spec_block_children(ns@, *c, depth as nat),
    decreases *ns, 2nat,
{
    let mut i: usize = 0;
    while i < ns.len()
        invariant
            i <= ns.len(),
            out@ == old(out)@ + spec_block_children(ns@.take(i as int), *c, depth as nat),
        decreases ns.len() - i,
    {
        render_block_node(out, &ns[i], c, depth);
        out.push('\n');
        proof {
            assert(ns@.take(i + 1).drop_last() =~= ns@.take(i as int));
            assert(out@ =~= old(out)@ + spec_block_children(ns@.take(i + 1), *c, depth as nat));
        }
        i = i + 1;
    }
    proof {
        assert(ns@.take(ns@.len() as int) =~= ns@);
    }
}

fn render_block_element(out: &mut Vec<char>, e: &Element, c: &Config, depth: usize)
    ensures
        final(out)@ == old(out)@ + spec_block_element(*e, *c, depth as nat),
    decreases *e, 3nat,
{
    if !c.indent_text_nodes && has_text_child_exec(e) {
        let w = cap_mul_exec(c.indent, depth);
        push_spaces(out, w);
        render_inline_element(out, e, c);
        proof {
            assert(final(out)@ =~= old(out)@ + spec_block_element(*e, *c, depth as nat));
        }
    } else if e.children.len() == 0 {
        push_start_tag(out, e, c, depth);
    } else {
        push_start_tag(out, e, c, depth);
        out.push('\n');
        let d2 = bump_exec(depth);
        render_block_children(out, &e.children, c, d2);
        let w = cap_mul_exec(c.indent, depth);
        push_spaces(out, w);
        out.push('<');
        out.push('/');
        push_all(out, &e.name);
        out.push('>');
        proof {
            assert(final(out)@ =~= old(out)@ + spec_block_element(*e, *c, depth as nat));
        }
    }
}

/// Renders `doc` as canonical text under `config`.
///
/// The output is defined, character for character, by
/// [`spec_render_document`]: the same document and configuration always
/// render to the same text.
pub fn render(doc: &Document, config: &Config) -> (r: String)
    ensures
        r@ == spec_render_document(*doc, *config),
{
    let mut out: Vec<char> = Vec::new();
    render_block_children(&mut out, &doc.prolog, config, 0);
    render_block_element(&mut out, &doc.root, config, 0);
    out.push('\n');
    render_block_children(&mut out, &doc.epilog, config, 0);
    proof {
        assert(out@ =~= spec_render_document(*doc, *config));
    }
    chars_to_string(&out)
}

} // verus!
