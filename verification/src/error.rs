//! The parse error taxonomy. Every error carries the byte offset into the
//! input at which it was detected.

use vstd::prelude::*;

verus! {

/// What went wrong.
#[derive(Debug)]
pub enum ErrorKind {
    /// Malformed markup: an unterminated tag, comment, CDATA section,
    /// doctype or processing instruction, a bad name character, a missing
    /// `=` or quote in an attribute, or content that may not stand at the
    /// top level.
    LexError,
    /// An unresolvable or syntactically invalid character or entity
    /// reference.
    MalformedEntity,
    /// The same attribute name twice on one element.
    DuplicateAttribute { element: Vec<char>, name: Vec<char> },
    /// An end tag that does not match the innermost open element. For an
    /// end tag with no open element at all, `expected` is empty.
    MismatchedTag { expected: Vec<char>, found: Vec<char> },
    /// The input ended while this element was still open.
    UnclosedElement { name: Vec<char> },
    /// The input holds no root element.
    NoRootElement,
    /// The input holds more than one top-level element.
    MultipleRoots,
}

/// A positioned parse error.
#[derive(Debug)]
pub struct ParseError {
    pub kind: ErrorKind,
    /// Byte offset into the UTF-8 input at which the error was detected.
    pub offset: usize,
}

/// The number of UTF-8 bytes that encode `c`.
pub open spec fn utf8_len(c: char) -> nat {
    if (c as u32) < 0x80 {
        1
    } else if (c as u32) < 0x800 {
        2
    } else if (c as u32) < 0x10000 {
        3
    } else {
        4
    }
}

/// The byte offset of character position `i` of `s`, saturating at the
/// machine limit.
pub open spec fn spec_byte_offset(s: Seq<char>, i: int) -> nat
    decreases i,
{
    if i <= 0 {
        0
    } else {
        crate::render::cap_add(spec_byte_offset(s, i - 1), utf8_len(s[i - 1]))
    }
}

/// The byte offset of character position `i` of `t`.
pub fn byte_offset(t: &Vec<char>, i: usize) -> (r: usize)
    requires
        i <= t@.len(),
    ensures
        r as nat == spec_byte_offset(t@, i as int),
{
    let mut r: usize = 0;
    let mut j: usize = 0;
    while j < i
        invariant
            j <= i <= t@.len(),
            r as nat == spec_byte_offset(t@, j as int),
        decreases i - j,
    {
        let c = t[j];
        let l: usize = if (c as u32) < 0x80 {
            1
        } else if (c as u32) < 0x800 {
            2
        } else if (c as u32) < 0x10000 {
            3
        } else {
            4
        };
        r = crate::render::cap_add_exec(r, l);
        j = j + 1;
    }
    r
}

} // verus!
