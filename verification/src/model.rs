//! The document tree model: nodes, attributes, and the well-formedness
//! invariant that the parser establishes.

use vstd::prelude::*;
use crate::chars::valid_name;

verus! {

/// One attribute of an element: a name and a decoded value.
pub struct Attr {
    pub name: Vec<char>,
    pub value: Vec<char>,
}

/// An element: a name, an ordered sequence of attributes, and an ordered
/// sequence of child nodes. Attribute order and child order are document
/// order and are preserved.
pub struct Element {
    pub name: Vec<char>,
    pub attrs: Vec<Attr>,
    pub children: Vec<Node>,
}

/// A node of the tree. Text holds the decoded Unicode value, entities
/// already resolved; comments, CDATA, processing instructions and the
/// doctype hold their content verbatim.
pub enum Node {
    Element(Element),
    Text(Vec<char>),
    Comment(Vec<char>),
    CData(Vec<char>),
    ProcessingInstruction { target: Vec<char>, data: Vec<char> },
    Doctype(Vec<char>),
}

/// A document: exactly one root element, optionally preceded by a doctype
/// declaration, comments and processing instructions, and optionally
/// followed by comments and processing instructions.
pub struct Document {
    pub prolog: Vec<Node>,
    pub root: Element,
    pub epilog: Vec<Node>,
}

/// `p` occurs in `s` at position `i`.
pub open spec fn contains_at(s: Seq<char>, p: Seq<char>, i: int) -> bool {
    0 <= i && i + p.len() <= s.len() && s.subrange(i, i + p.len()) == p
}

/// `p` occurs somewhere in `s`.
pub open spec fn contains_seq(s: Seq<char>, p: Seq<char>) -> bool {
    exists|i: int| contains_at(s, p, i)
}

/// The attribute names of `attrs` are pairwise distinct.
pub open spec fn attr_names_unique(attrs: Seq<Attr>) -> bool {
    forall|i: int, j: int|
        0 <= i < j < attrs.len() ==> #[trigger] attrs[i].name@ != #[trigger] attrs[j].name@
}

impl Element {
    /// Well-formedness: a valid name, valid and pairwise distinct attribute
    /// names, and well-formed children.
    pub open spec fn wf(self) -> bool
        decreases self,
    {
        &&& valid_name(self.name@)
        &&& attr_names_unique(self.attrs@)
        &&& forall|i: int| 0 <= i < self.attrs@.len() ==> valid_name(#[trigger] self.attrs@[i].name@)
        &&& forall|i: int| 0 <= i < self.children@.len() ==> (#[trigger] self.children@[i]).wf()
    }
}

impl Node {
    /// Well-formedness. A comment must not contain the sequence that closes
    /// a comment, CDATA content must not contain the CDATA terminator, and
    /// the data of a processing instruction must not contain its terminator:
    /// each is emitted verbatim, so such content could not be represented.
    pub open spec fn wf(self) -> bool
        decreases self,
    {
        match self {
            Node::Element(e) => e.wf(),
            Node::Text(_) => true,
            Node::Comment(c) => !contains_seq(c@, seq!['-', '-', '>']),
            Node::CData(c) => !contains_seq(c@, seq![']', ']', '>']),
            Node::ProcessingInstruction { target, data } => valid_name(target@) && !contains_seq(
                data@,
                seq!['?', '>'],
            ),
            Node::Doctype(_) => true,
        }
    }

    /// The node is allowed before the root element: a doctype, a comment,
    /// or a processing instruction.
    pub open spec fn is_misc_before(self) -> bool {
        self is Doctype || self is Comment || self is ProcessingInstruction
    }

    /// The node is allowed after the root element: a comment or a
    /// processing instruction.
    pub open spec fn is_misc_after(self) -> bool {
        self is Comment || self is ProcessingInstruction
    }
}

impl Document {
    /// Well-formedness: a well-formed root, and only well-formed
    /// miscellaneous nodes around it.
    pub open spec fn wf(self) -> bool {
        &&& self.root.wf()
        &&& forall|i: int|
            0 <= i < self.prolog@.len() ==> (#[trigger] self.prolog@[i]).is_misc_before()
                && self.prolog@[i].wf()
        &&& forall|i: int|
            0 <= i < self.epilog@.len() ==> (#[trigger] self.epilog@[i]).is_misc_after()
                && self.epilog@[i].wf()
    }
}

/// The two characters `a`, `b` occur adjacently in `v`.
fn has_pat2(v: &Vec<char>, a: char, b: char) -> (r: bool)
    ensures
        r == contains_seq(v@, seq![a, b]),
{
    let mut j: usize = 0;
    while v.len() - j >= 2
        invariant
            j <= v@.len(),
            forall|k: int| 0 <= k < j ==> !((#[trigger] v@[k]) == a && v@[k + 1] == b),
        decreases v@.len() - j,
    {
        if v[j] == a && v[j + 1] == b {
            proof {
                assert(v@.subrange(j as int, j + 2) =~= seq![a, b]);
                assert(contains_at(v@, seq![a, b], j as int));
            }
            return true;
        }
        j = j + 1;
    }
    proof {
        assert forall|i: int| !contains_at(v@, seq![a, b], i) by {
            if 0 <= i && i + 2 <= v@.len() && v@.subrange(i, i + 2) == seq![a, b] {
                assert(v@.subrange(i, i + 2)[0] == a);
                assert(v@.subrange(i, i + 2)[1] == b);
            }
        }
    }
    false
}

/// The three characters `a`, `b`, `c` occur adjacently in `v`.
fn has_pat3(v: &Vec<char>, a: char, b: char, c: char) -> (r: bool)
    ensures
        r == contains_seq(v@, seq![a, b, c]),
{
    let mut j: usize = 0;
    while v.len() - j >= 3
        invariant
            j <= v@.len(),
            forall|k: int|
                0 <= k < j ==> !((#[trigger] v@[k]) == a && v@[k + 1] == b && v@[k + 2] == c),
        decreases v@.len() - j,
    {
        if v[j] == a && v[j + 1] == b && v[j + 2] == c {
            proof {
                assert(v@.subrange(j as int, j + 3) =~= seq![a, b, c]);
                assert(contains_at(v@, seq![a, b, c], j as int));
            }
            return true;
        }
        j = j + 1;
    }
    proof {
        assert forall|i: int| !contains_at(v@, seq![a, b, c], i) by {
            if 0 <= i && i + 3 <= v@.len() && v@.subrange(i, i + 3) == seq![a, b, c] {
                assert(v@.subrange(i, i + 3)[0] == a);
                assert(v@.subrange(i, i + 3)[1] == b);
                assert(v@.subrange(i, i + 3)[2] == c);
            }
        }
    }
    false
}

/// `v` is a valid XML name.
fn check_name(v: &Vec<char>) -> (r: bool)
    ensures
        r == valid_name(v@),
{
    if v.len() == 0 || !crate::chars::name_start_char(v[0]) {
        return false;
    }
    let mut i: usize = 1;
    while i < v.len()
        invariant
            1 <= i <= v@.len(),
            valid_name(v@.subrange(0, i as int)),
        decreases v@.len() - i,
    {
        if !crate::chars::name_char(v[i]) {
            return false;
        }
        proof {
            let sub = v@.subrange(0, i + 1);
            assert(sub[0] == v@[0]);
            assert forall|k: int| 0 < k < sub.len() implies crate::chars::is_name_char(
                #[trigger] sub[k],
            ) by {
                if k < i {
                    assert(v@.subrange(0, i as int)[k] == sub[k]);
                }
            }
        }
        i = i + 1;
    }
    proof {
        assert(v@.subrange(0, v@.len() as int) =~= v@);
    }
    true
}

impl Element {
    /// Checks the well-formedness invariant [`Element::wf`].
    pub fn is_well_formed(&self) -> (r: bool)
        ensures
            r == self.wf(),
        decreases *self, 1nat,
    {
        if !check_name(&self.name) {
            return false;
        }
        let mut i: usize = 0;
        while i < self.attrs.len()
            invariant
                i <= self.attrs@.len(),
                forall|j: int| 0 <= j < i ==> valid_name((#[trigger] self.attrs@[j]).name@),
                forall|j: int, k: int|
                    0 <= j < k < i ==> (#[trigger] self.attrs@[j].name@) != (
                    #[trigger] self.attrs@[k].name@),
            decreases self.attrs@.len() - i,
        {
            if !check_name(&self.attrs[i].name) {
                return false;
            }
            let mut j: usize = 0;
            while j < i
                invariant
                    j <= i < self.attrs@.len(),
                    forall|k: int|
                        0 <= k < j ==> (#[trigger] self.attrs@[k].name@) != self.attrs@[i as int].name@,
                decreases i - j,
            {
                if crate::chars::eq_chars(&self.attrs[j].name, &self.attrs[i].name) {
                    return false;
                }
                j = j + 1;
            }
            i = i + 1;
        }
        let mut k: usize = 0;
        while k < self.children.len()
            invariant
                k <= self.children@.len(),
                forall|j: int| 0 <= j < k ==> (#[trigger] self.children@[j]).wf(),
            decreases self.children@.len() - k,
        {
            if !self.children[k].is_well_formed() {
                return false;
            }
            k = k + 1;
        }
        true
    }
}

impl Node {
    /// Checks the well-formedness invariant [`Node::wf`].
    pub fn is_well_formed(&self) -> (r: bool)
        ensures
            r == self.wf(),
        decreases *self, 2nat,
    {
        match self {
            Node::Element(e) => e.is_well_formed(),
            Node::Text(_) => true,
            Node::Comment(c) => !has_pat3(c, '-', '-', '>'),
            Node::CData(c) => !has_pat3(c, ']', ']', '>'),
            Node::ProcessingInstruction { target, data } => check_name(target) && !has_pat2(
                data,
                '?',
                '>',
            ),
            Node::Doctype(_) => true,
        }
    }
}

impl Document {
    /// Checks the well-formedness invariant [`Document::wf`].
    pub fn is_well_formed(&self) -> (r: bool)
        ensures
            r == self.wf(),
    {
        if !self.root.is_well_formed() {
            return false;
        }
        let mut i: usize = 0;
        while i < self.prolog.len()
            invariant
                i <= self.prolog@.len(),
                forall|j: int|
                    0 <= j < i ==> (#[trigger] self.prolog@[j]).is_misc_before()
                        && self.prolog@[j].wf(),
            decreases self.prolog@.len() - i,
        {
            let ok = match &self.prolog[i] {
                Node::Doctype(_) => true,
                Node::Comment(_) => true,
                Node::ProcessingInstruction { .. } => true,
                _ => false,
            };
            if !ok || !self.prolog[i].is_well_formed() {
                return false;
            }
            i = i + 1;
        }
        let mut k: usize = 0;
        while k < self.epilog.len()
            invariant
                k <= self.epilog@.len(),
                forall|j: int|
                    0 <= j < k ==> (#[trigger] self.epilog@[j]).is_misc_after()
                        && self.epilog@[j].wf(),
            decreases self.epilog@.len() - k,
        {
            let ok = match &self.epilog[k] {
                Node::Comment(_) => true,
                Node::ProcessingInstruction { .. } => true,
                _ => false,
            };
            if !ok || !self.epilog[k].is_well_formed() {
                return false;
            }
            k = k + 1;
        }
        true
    }
}

} // verus!
