//! The tree builder: consumes the token stream and assembles the single
//! rooted, ordered tree, validating structural well-formedness with an
//! explicit stack of open elements.

use vstd::prelude::*;
use crate::chars::{all_ws, eq_chars, is_name_char, is_name_start_char, is_xml_space, str_to_chars, valid_name};
use crate::error::{byte_offset, ErrorKind, ParseError};
use crate::lexer::{lemma_ws_end_eq, next_attr_value, next_content_token, next_tag_token, ws_end, Token};
use crate::model::{attr_names_unique, Attr, Document, Element, Node};

verus! {

/// The text is exactly one self-closing tag: `<`, the name `nm`, optional
/// whitespace, `/>` with the `/` at position `e`, and nothing but
/// whitespace after it.
pub open spec fn self_closing_shape(t: Seq<char>, nm: Seq<char>, e: int) -> bool {
    &&& valid_name(nm)
    &&& t.len() >= 1
    &&& t[0] == '<'
    &&& 1 + nm.len() <= e
    &&& e + 2 <= t.len()
    &&& t.subrange(1, 1 + nm.len() as int) == nm
    &&& (forall|k: int| 1 + nm.len() <= k < e ==> is_xml_space(#[trigger] t[k]))
    &&& t[e] == '/'
    &&& t[e + 1] == '>'
    &&& (forall|k: int| e + 2 <= k < t.len() ==> is_xml_space(#[trigger] t[k]))
}

/// The text is one self-closing tag, possibly followed by whitespace.
pub open spec fn is_self_closing_doc(t: Seq<char>) -> bool {
    exists|nm: Seq<char>, e: int| self_closing_shape(t, nm, e)
}

proof fn lemma_shape_facts(t: Seq<char>, nm: Seq<char>, e: int)
    requires
        self_closing_shape(t, nm, e),
    ensures
        nm.len() >= 1,
        e >= 2,
        t.len() >= 4,
        t[0] == '<',
        is_name_start_char(t[1]),
        ws_end(t, 1 + nm.len() as int) == e,
{
    assert(t.subrange(1, 1 + nm.len() as int)[0] == t[1]);
    lemma_ws_end_eq(t, 1 + nm.len() as int, e);
}

/// In a self-closing text the name scanned after `<` is exactly `nm`.
proof fn lemma_self_closing_name(t: Seq<char>, nm: Seq<char>, e: int, got: Seq<char>, np: int)
    requires
        self_closing_shape(t, nm, e),
        valid_name(got),
        1 <= np <= t.len(),
        got == t.subrange(1, np),
        np == t.len() || !is_name_char(t[np]),
    ensures
        np == 1 + nm.len(),
        got == nm,
{
    let n = nm.len() as int;
    assert(!is_name_char(t[1 + n])) by {
        if 1 + n < e {
            assert(is_xml_space(t[1 + n]));
        } else {
            assert(t[1 + n] == '/');
        }
    }
    if np < 1 + n {
        assert(t.subrange(1, 1 + n)[np - 1] == t[np]);
        assert(nm[np - 1] == t[np]);
        assert(got.len() > 0);
        assert(np - 1 >= 1);
        assert(is_name_char(nm[np - 1]));
        assert(np < t.len());
        assert(false);
    }
    if np > 1 + n {
        assert(got[n] == t.subrange(1, np)[n]);
        assert(got[n] == t[1 + n]);
        assert(0 < n < got.len());
        assert(is_name_char(got[n]));
        assert(false);
    }
    assert(got =~= nm);
}

/// Appends one well-formed node to the children of the innermost open
/// element, keeping every frame of the stack well-formed.
fn push_child(stack: &mut Vec<Element>, nd: Node)
    requires
        old(stack)@.len() > 0,
        forall|i: int| 0 <= i < old(stack)@.len() ==> (#[trigger] old(stack)@[i]).wf(),
        nd.wf(),
    ensures
        final(stack)@.len() == old(stack)@.len(),
        forall|i: int| 0 <= i < final(stack)@.len() ==> (#[trigger] final(stack)@[i]).wf(),
{
    let ghost orig = stack@;
    match stack.pop() {
        Some(mut top) => {
            proof {
                assert(top == orig.last());
                assert(top.wf());
            }
            let ghost oldtop = top;
            top.children.push(nd);
            proof {
                let cs = top.children@;
                assert forall|j: int| 0 <= j < cs.len() implies (#[trigger] cs[j]).wf() by {
                    if j < oldtop.children@.len() {
                        assert(oldtop.children@[j].wf());
                    }
                }
                assert(top.wf());
            }
            stack.push(top);
            proof {
                assert forall|i: int| 0 <= i < stack@.len() implies (#[trigger] stack@[i]).wf() by {
                    if i < stack@.len() - 1 {
                        assert(orig[i].wf());
                    }
                }
            }
        },
        None => {},
    }
}

/// Parses a whole document from its characters.
///
/// On success the document is well-formed: one root element, matched
/// tags, unique attribute names, valid names, entities resolved, and
/// verbatim sections free of their terminators. Whitespace-only text
/// between markup is insignificant and dropped; any other text outside
/// the root element is malformed markup.
pub fn parse_chars(t: &Vec<char>) -> (r: Result<Document, ParseError>)
    ensures
        r is Ok ==> r->Ok_0.wf(),
        (forall|i: int| 0 <= i < t@.len() ==> is_xml_space(#[trigger] t@[i])) ==> r is Err
            && r->Err_0.kind is NoRootElement,
        is_self_closing_doc(t@) ==> ({
            &&& r is Ok
            &&& r->Ok_0.prolog@.len() == 0
            &&& r->Ok_0.epilog@.len() == 0
            &&& r->Ok_0.root.attrs@.len() == 0
            &&& r->Ok_0.root.children@.len() == 0
            &&& exists|e: int| self_closing_shape(t@, r->Ok_0.root.name@, e)
        }),
{
    let ghost gnm: Seq<char> = if is_self_closing_doc(t@) {
        (choose|nm: Seq<char>, e: int| self_closing_shape(t@, nm, e)).0
    } else {
        Seq::empty()
    };
    let ghost ge: int = if is_self_closing_doc(t@) {
        (choose|nm: Seq<char>, e: int| self_closing_shape(t@, nm, e)).1
    } else {
        0
    };
    proof {
        if is_self_closing_doc(t@) {
            assert(self_closing_shape(t@, gnm, ge));
            lemma_shape_facts(t@, gnm, ge);
        }
    }
    let mut pos: usize = 0;
    let mut stack: Vec<Element> = Vec::new();
    let mut prolog: Vec<Node> = Vec::new();
    let mut root: Option<Element> = None;
    let mut epilog: Vec<Node> = Vec::new();
    while pos < t.len()
        invariant
            pos <= t@.len(),
            forall|i: int| 0 <= i < stack@.len() ==> (#[trigger] stack@[i]).wf(),
            forall|i: int|
                0 <= i < prolog@.len() ==> (#[trigger] prolog@[i]).is_misc_before()
                    && prolog@[i].wf(),
            forall|i: int|
                0 <= i < epilog@.len() ==> (#[trigger] epilog@[i]).is_misc_after()
                    && epilog@[i].wf(),
            root is Some ==> root->0.wf(),
            (forall|i: int| 0 <= i < t@.len() ==> is_xml_space(#[trigger] t@[i])) ==> stack@.len()
                == 0 && root is None,
            is_self_closing_doc(t@) ==> self_closing_shape(t@, gnm, ge),
            self_closing_shape(t@, gnm, ge) ==> ({
                ||| (pos == 0 && stack@.len() == 0 && root is None && prolog@.len() == 0
                    && epilog@.len() == 0)
                ||| (pos >= ge + 2 && stack@.len() == 0 && prolog@.len() == 0 && epilog@.len() == 0
                    && root is Some && root->0.name@ == gnm && root->0.attrs@.len() == 0
                    && root->0.children@.len() == 0)
            }),
        decreases t@.len() - pos,
    {
        let (tok, np) = match next_content_token(t, pos) {
            Ok(x) => x,
            Err(e) => {
                proof {
                    if self_closing_shape(t@, gnm, ge) {
                        lemma_shape_facts(t@, gnm, ge);
                        if pos == 0 {
                            assert(false);
                        } else {
                            assert forall|k: int|
                                pos <= k < t@.len() implies (#[trigger] t@[k]) != '&' by {
                                assert(is_xml_space(t@[k]));
                            }
                            assert(false);
                        }
                    }
                }
                return Err(e);
            },
        };
        proof {
            if self_closing_shape(t@, gnm, ge) {
                lemma_shape_facts(t@, gnm, ge);
                if pos == 0 {
                    assert(tok is StartTagOpen);
                } else {
                    assert(pos >= ge + 2);
                    assert(is_xml_space(t@[pos as int]));
                    assert forall|k: int| pos <= k < t@.len() implies (#[trigger] t@[k]) != '&' by {
                        assert(is_xml_space(t@[k]));
                    }
                    assert(tok is TextRun);
                }
            }
        }
        match tok {
            Token::TextRun(txt) => {
                if stack.len() == 0 {
                    if !all_ws(&txt) {
                        proof {
                            if self_closing_shape(t@, gnm, ge) {
                                assert forall|j: int|
                                    0 <= j < txt@.len() implies is_xml_space(
                                    #[trigger] txt@[j],
                                ) by {
                                    assert(txt@[j] == t@[pos + j]);
                                }
                                assert(false);
                            }
                        }
                        return Err(
                            ParseError { kind: ErrorKind::LexError, offset: byte_offset(t, pos) },
                        );
                    }
                } else {
                    if !all_ws(&txt) {
                        push_child(&mut stack, Node::Text(txt));
                    }
                }
                pos = np;
            },
            Token::Comment(c) => {
                let nd = Node::Comment(c);
                if stack.len() > 0 {
                    push_child(&mut stack, nd);
                } else if root.is_none() {
                    prolog.push(nd);
                } else {
                    epilog.push(nd);
                }
                pos = np;
            },
            Token::CData(c) => {
                if stack.len() == 0 {
                    return Err(
                        ParseError { kind: ErrorKind::LexError, offset: byte_offset(t, pos) },
                    );
                }
                push_child(&mut stack, Node::CData(c));
                pos = np;
            },
            Token::PI { target, data } => {
                let nd = Node::ProcessingInstruction { target, data };
                if stack.len() > 0 {
                    push_child(&mut stack, nd);
                } else if root.is_none() {
                    prolog.push(nd);
                } else {
                    epilog.push(nd);
                }
                pos = np;
            },
            Token::Doctype(d) => {
                if stack.len() == 0 && root.is_none() {
                    prolog.push(Node::Doctype(d));
                    pos = np;
                } else {
                    return Err(
                        ParseError { kind: ErrorKind::LexError, offset: byte_offset(t, pos) },
                    );
                }
            },
            Token::StartTagOpen(name) => {
                proof {
                    if self_closing_shape(t@, gnm, ge) {
                        lemma_self_closing_name(t@, gnm, ge, name@, np as int);
                    }
                }
                let mut attrs: Vec<Attr> = Vec::new();
                let mut p2 = np;
                let mut done = false;
                let mut selfclose = false;
                while !done
                    invariant
                        !(forall|i: int| 0 <= i < t@.len() ==> is_xml_space(#[trigger] t@[i])),
                        p2 <= t@.len(),
                        np <= p2,
                        pos < np,
                        attr_names_unique(attrs@),
                        forall|j: int|
                            0 <= j < attrs@.len() ==> crate::chars::valid_name(
                                #[trigger] attrs@[j].name@,
                            ),
                        crate::chars::valid_name(name@),
                        is_self_closing_doc(t@) ==> self_closing_shape(t@, gnm, ge),
                        self_closing_shape(t@, gnm, ge) ==> ({
                            &&& attrs@.len() == 0
                            &&& ((!done && p2 == 1 + gnm.len()) || (done && selfclose && p2 == ge
                                + 2))
                        }),
                    decreases t@.len() - p2,
                {
                    let (tt, tp) = match next_tag_token(t, p2) {
                        Ok(x) => x,
                        Err(e) => {
                            proof {
                                if self_closing_shape(t@, gnm, ge) {
                                    lemma_shape_facts(t@, gnm, ge);
                                    assert(false);
                                }
                            }
                            return Err(e);
                        },
                    };
                    proof {
                        if self_closing_shape(t@, gnm, ge) {
                            lemma_shape_facts(t@, gnm, ge);
                            assert(tt is SelfCloseTag);
                            assert(tp == ge + 2);
                        }
                    }
                    match tt {
                        Token::AttrName(an) => {
                            let mut k: usize = 0;
                            let mut dup = false;
                            while k < attrs.len()
                                invariant
                                    k <= attrs@.len(),
                                    dup <==> exists|j: int|
                                        0 <= j < k && (#[trigger] attrs@[j].name@) == an@,
                                decreases attrs@.len() - k,
                            {
                                if eq_chars(&attrs[k].name, &an) {
                                    dup = true;
                                }
                                k = k + 1;
                            }
                            if dup {
                                return Err(
                                    ParseError {
                                        kind: ErrorKind::DuplicateAttribute {
                                            element: name,
                                            name: an,
                                        },
                                        offset: byte_offset(t, p2),
                                    },
                                );
                            }
                            let (vt, vp) = match next_attr_value(t, tp) {
                                Ok(x) => x,
                                Err(e) => {
                                    return Err(e);
                                },
                            };
                            let val = match vt {
                                Token::AttrValue(v) => v,
                                _ => {
                                    return Err(
                                        ParseError {
                                            kind: ErrorKind::LexError,
                                            offset: byte_offset(t, tp),
                                        },
                                    );
                                },
                            };
                            let ghost prev = attrs@;
                            attrs.push(Attr { name: an, value: val });
                            proof {
                                assert forall|i: int, j: int|
                                    0 <= i < j < attrs@.len() implies (#[trigger] attrs@[i].name@)
                                    != (#[trigger] attrs@[j].name@) by {
                                    if j < prev.len() {
                                        assert(prev[i].name@ != prev[j].name@);
                                    } else {
                                        assert(!(exists|m: int|
                                            0 <= m < prev.len() && (#[trigger] prev[m].name@)
                                                == attrs@[j].name@));
                                    }
                                }
                            }
                            p2 = vp;
                        },
                        Token::StartTagClose => {
                            done = true;
                            selfclose = false;
                            p2 = tp;
                        },
                        Token::SelfCloseTag => {
                            done = true;
                            selfclose = true;
                            p2 = tp;
                        },
                        _ => {
                            return Err(
                                ParseError {
                                    kind: ErrorKind::LexError,
                                    offset: byte_offset(t, p2),
                                },
                            );
                        },
                    }
                }
                let e = Element { name, attrs, children: Vec::new() };
                if selfclose {
                    if stack.len() > 0 {
                        push_child(&mut stack, Node::Element(e));
                    } else if root.is_none() {
                        root = Some(e);
                    } else {
                        return Err(
                            ParseError {
                                kind: ErrorKind::MultipleRoots,
                                offset: byte_offset(t, pos),
                            },
                        );
                    }
                } else {
                    stack.push(e);
                }
                pos = p2;
            },
            Token::EndTag(en) => {
                if stack.len() == 0 {
                    return Err(
                        ParseError {
                            kind: ErrorKind::MismatchedTag { expected: Vec::new(), found: en },
                            offset: byte_offset(t, pos),
                        },
                    );
                }
                match stack.pop() {
                    Some(top) => {
                        if !eq_chars(&top.name, &en) {
                            return Err(
                                ParseError {
                                    kind: ErrorKind::MismatchedTag {
                                        expected: top.name,
                                        found: en,
                                    },
                                    offset: byte_offset(t, pos),
                                },
                            );
                        }
                        if stack.len() > 0 {
                            push_child(&mut stack, Node::Element(top));
                        } else if root.is_none() {
                            root = Some(top);
                        } else {
                            return Err(
                                ParseError {
                                    kind: ErrorKind::MultipleRoots,
                                    offset: byte_offset(t, pos),
                                },
                            );
                        }
                    },
                    None => {},
                }
                pos = np;
            },
            _ => {
                return Err(
                    ParseError { kind: ErrorKind::LexError, offset: byte_offset(t, pos) },
                );
            },
        }
    }
    if stack.len() > 0 {
        match stack.pop() {
            Some(top) => {
                return Err(
                    ParseError {
                        kind: ErrorKind::UnclosedElement { name: top.name },
                        offset: byte_offset(t, pos),
                    },
                );
            },
            None => {},
        }
    }
    match root {
        Some(rt) => Ok(Document { prolog, root: rt, epilog }),
        None => Err(ParseError { kind: ErrorKind::NoRootElement, offset: byte_offset(t, pos) }),
    }
}

/// Parses an XML document.
///
/// On success the document is well-formed in the sense of
/// [`Document::wf`]; every error is positioned at the byte offset where
/// it was detected.
pub fn parse(text: &str) -> (r: Result<Document, ParseError>)
    ensures
        r is Ok ==> r->Ok_0.wf(),
        (forall|i: int| 0 <= i < text@.len() ==> is_xml_space(#[trigger] text@[i])) ==> r is Err
            && r->Err_0.kind is NoRootElement,
        is_self_closing_doc(text@) ==> ({
            &&& r is Ok
            &&& r->Ok_0.prolog@.len() == 0
            &&& r->Ok_0.epilog@.len() == 0
            &&& r->Ok_0.root.attrs@.len() == 0
            &&& r->Ok_0.root.children@.len() == 0
            &&& exists|e: int| self_closing_shape(text@, r->Ok_0.root.name@, e)
        }),
{
    let t = str_to_chars(text);
    parse_chars(&t)
}

} // verus!
