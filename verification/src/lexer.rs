//! The lexer: turns raw text into markup tokens, one token per call, in a
//! single pass. Entity references are decoded here; malformed markup and
//! unresolvable entities fail with a positioned error.

use vstd::prelude::*;
use crate::chars::{
    is_name_char, is_name_start_char, is_xml_space, name_char, name_start_char, sub_vec,
    valid_name, xml_space,
};
use crate::error::{byte_offset, ErrorKind, ParseError};
use crate::model::{contains_at, contains_seq};

verus! {

/// One markup token.
pub enum Token {
    StartTagOpen(Vec<char>),
    AttrName(Vec<char>),
    AttrValue(Vec<char>),
    StartTagClose,
    SelfCloseTag,
    EndTag(Vec<char>),
    TextRun(Vec<char>),
    Comment(Vec<char>),
    CData(Vec<char>),
    PI { target: Vec<char>, data: Vec<char> },
    Doctype(Vec<char>),
}

/// A malformed-markup error at character position `pos`.
fn lex_err(t: &Vec<char>, pos: usize) -> (r: ParseError)
    requires
        pos <= t@.len(),
    ensures
        r.kind is LexError,
{
    ParseError { kind: ErrorKind::LexError, offset: byte_offset(t, pos) }
}

/// A malformed-entity error at character position `pos`.
fn entity_err(t: &Vec<char>, pos: usize) -> (r: ParseError)
    requires
        pos <= t@.len(),
    ensures
        r.kind is MalformedEntity,
{
    ParseError { kind: ErrorKind::MalformedEntity, offset: byte_offset(t, pos) }
}

/// The position of the first non-whitespace character at or after `i`.
pub open spec fn ws_end(s: Seq<char>, i: int) -> int
    decreases s.len() - i,
{
    if i < 0 || i >= s.len() || !is_xml_space(s[i]) {
        i
    } else {
        ws_end(s, i + 1)
    }
}

pub proof fn lemma_ws_end_eq(s: Seq<char>, i: int, q: int)
    requires
        0 <= i <= q <= s.len(),
        forall|k: int| i <= k < q ==> is_xml_space(#[trigger] s[k]),
        q == s.len() || !is_xml_space(s[q]),
    ensures
        ws_end(s, i) == q,
    decreases q - i,
{
    if i < q {
        lemma_ws_end_eq(s, i + 1, q);
    }
}

/// The position of the first occurrence of `c` at or after `i`, or the
/// length of `s` if there is none.
pub open spec fn find_char(s: Seq<char>, i: int, c: char) -> int
    decreases s.len() - i,
{
    if i < 0 || i >= s.len() || s[i] == c {
        i
    } else {
        find_char(s, i + 1, c)
    }
}

pub proof fn lemma_find_char(s: Seq<char>, i: int, c: char)
    requires
        0 <= i <= s.len(),
    ensures
        i <= find_char(s, i, c) <= s.len(),
        forall|k: int| i <= k < find_char(s, i, c) ==> (#[trigger] s[k]) != c,
        find_char(s, i, c) == s.len() || s[find_char(s, i, c)] == c,
    decreases s.len() - i,
{
    if i < s.len() && s[i] != c {
        lemma_find_char(s, i + 1, c);
    }
}

/// The position of the first non-whitespace character at or after `pos`.
pub fn skip_ws(t: &Vec<char>, pos: usize) -> (r: usize)
    requires
        pos <= t@.len(),
    ensures
        pos <= r <= t@.len(),
        r as int == ws_end(t@, pos as int),
        forall|j: int| pos <= j < r ==> is_xml_space(#[trigger] t@[j]),
        r == t@.len() || !is_xml_space(t@[r as int]),
{
    let mut p = pos;
    while p < t.len() && xml_space(t[p])
        invariant
            pos <= p <= t@.len(),
            forall|j: int| pos <= j < p ==> is_xml_space(#[trigger] t@[j]),
        decreases t@.len() - p,
    {
        p = p + 1;
    }
    proof {
        lemma_ws_end_eq(t@, pos as int, p as int);
    }
    p
}

/// The maximal name starting at `pos`, if a name starts there.
pub fn scan_name(t: &Vec<char>, pos: usize) -> (r: Option<(Vec<char>, usize)>)
    requires
        pos <= t@.len(),
    ensures
        match r {
            Some(p) => {
                &&& pos < p.1 <= t@.len()
                &&& p.0@ == t@.subrange(pos as int, p.1 as int)
                &&& valid_name(p.0@)
                &&& p.1 == t@.len() || !is_name_char(t@[p.1 as int])
            },
            None => pos == t@.len() || !is_name_start_char(t@[pos as int]),
        },
{
    if pos < t.len() && name_start_char(t[pos]) {
        let mut v: Vec<char> = Vec::new();
        v.push(t[pos]);
        let mut p = pos + 1;
        while p < t.len() && name_char(t[p])
            invariant
                pos < p <= t@.len(),
                v@ == t@.subrange(pos as int, p as int),
                forall|j: int| pos < j < p ==> is_name_char(#[trigger] t@[j]),
            decreases t@.len() - p,
        {
            v.push(t[p]);
            proof {
                assert(v@ =~= t@.subrange(pos as int, p + 1));
            }
            p = p + 1;
        }
        Some((v, p))
    } else {
        None
    }
}

/// The first position at or after `pos` that holds `a`.
fn scan_to_1(t: &Vec<char>, pos: usize, a: char) -> (r: Option<usize>)
    requires
        pos <= t@.len(),
    ensures
        match r {
            Some(j) => pos <= j < t@.len() && t@[j as int] == a,
            None => true,
        },
{
    let mut j = pos;
    while j < t.len()
        invariant
            pos <= j <= t@.len(),
        decreases t@.len() - j,
    {
        if t[j] == a {
            return Some(j);
        }
        j = j + 1;
    }
    None
}

/// The first position at or after `pos` where `a` then `b` stand.
fn scan_to_2(t: &Vec<char>, pos: usize, a: char, b: char) -> (r: Option<usize>)
    requires
        pos <= t@.len(),
    ensures
        match r {
            Some(j) => {
                &&& pos <= j
                &&& j + 2 <= t@.len()
                &&& t@[j as int] == a && t@[j + 1] == b
                &&& forall|k: int|
                    pos <= k < j ==> !((#[trigger] t@[k]) == a && t@[k + 1] == b)
            },
            None => forall|k: int|
                pos <= k && k + 2 <= t@.len() ==> !((#[trigger] t@[k]) == a && t@[k + 1] == b),
        },
{
    let mut j = pos;
    while t.len() - j >= 2
        invariant
            pos <= j <= t@.len(),
            forall|k: int| pos <= k < j ==> !((#[trigger] t@[k]) == a && t@[k + 1] == b),
        decreases t@.len() - j,
    {
        if t[j] == a && t[j + 1] == b {
            return Some(j);
        }
        j = j + 1;
    }
    None
}

/// The first position at or after `pos` where `a`, `b`, `c` stand.
fn scan_to_3(t: &Vec<char>, pos: usize, a: char, b: char, c: char) -> (r: Option<usize>)
    requires
        pos <= t@.len(),
    ensures
        match r {
            Some(j) => {
                &&& pos <= j
                &&& j + 3 <= t@.len()
                &&& t@[j as int] == a && t@[j + 1] == b && t@[j + 2] == c
                &&& forall|k: int|
                    pos <= k < j ==> !((#[trigger] t@[k]) == a && t@[k + 1] == b && t@[k + 2] == c)
            },
            None => forall|k: int|
                pos <= k && k + 3 <= t@.len() ==> !((#[trigger] t@[k]) == a && t@[k + 1] == b
                    && t@[k + 2] == c),
        },
{
    let mut j = pos;
    while t.len() - j >= 3
        invariant
            pos <= j <= t@.len(),
            forall|k: int|
                pos <= k < j ==> !((#[trigger] t@[k]) == a && t@[k + 1] == b && t@[k + 2] == c),
        decreases t@.len() - j,
    {
        if t[j] == a && t[j + 1] == b && t[j + 2] == c {
            return Some(j);
        }
        j = j + 1;
    }
    None
}

/// A range of `s` free of matches of a two-character pattern contains no
/// occurrence of it.
proof fn lemma_scan2_content(s: Seq<char>, p: int, j: int, a: char, b: char)
    requires
        0 <= p <= j,
        j + 2 <= s.len(),
        forall|k: int| p <= k < j ==> !((#[trigger] s[k]) == a && s[k + 1] == b),
    ensures
        !contains_seq(s.subrange(p, j), seq![a, b]),
{
    let sub = s.subrange(p, j);
    let pat = seq![a, b];
    assert forall|i: int| !contains_at(sub, pat, i) by {
        if 0 <= i && i + 2 <= sub.len() && sub.subrange(i, i + 2) == pat {
            assert(sub.subrange(i, i + 2)[0] == a);
            assert(sub.subrange(i, i + 2)[1] == b);
            assert(s[p + i] == a && s[p + i + 1] == b);
        }
    }
}

/// A range of `s` free of matches of a three-character pattern contains no
/// occurrence of it.
proof fn lemma_scan3_content(s: Seq<char>, p: int, j: int, a: char, b: char, c: char)
    requires
        0 <= p <= j,
        j + 3 <= s.len(),
        forall|k: int| p <= k < j ==> !((#[trigger] s[k]) == a && s[k + 1] == b && s[k + 2] == c),
    ensures
        !contains_seq(s.subrange(p, j), seq![a, b, c]),
{
    let sub = s.subrange(p, j);
    let pat = seq![a, b, c];
    assert forall|i: int| !contains_at(sub, pat, i) by {
        if 0 <= i && i + 3 <= sub.len() && sub.subrange(i, i + 3) == pat {
            assert(sub.subrange(i, i + 3)[0] == a);
            assert(sub.subrange(i, i + 3)[1] == b);
            assert(sub.subrange(i, i + 3)[2] == c);
            assert(s[p + i] == a && s[p + i + 1] == b && s[p + i + 2] == c);
        }
    }
}

pub open spec fn is_dec_digit(c: char) -> bool {
    '0' <= c && c <= '9'
}

pub open spec fn is_hex_digit(c: char) -> bool {
    is_dec_digit(c) || ('a' <= c && c <= 'f') || ('A' <= c && c <= 'F')
}

/// The value of one hexadecimal digit.
pub open spec fn hex_digit_val(c: char) -> int {
    if is_dec_digit(c) {
        c as int - 48
    } else if 'a' <= c && c <= 'f' {
        c as int - 87
    } else {
        c as int - 55
    }
}

/// The position after the run of digits that starts at `i`; `hex` selects
/// hexadecimal digits over decimal ones.
pub open spec fn digit_run_end(s: Seq<char>, i: int, hex: bool) -> int
    decreases s.len() - i,
{
    if i < 0 || i >= s.len() || !(if hex {
        is_hex_digit(s[i])
    } else {
        is_dec_digit(s[i])
    }) {
        i
    } else {
        digit_run_end(s, i + 1, hex)
    }
}

/// The numeric value of the digits of `s` from `i` to `j`, in base 10 or,
/// when `hex` is set, base 16.
pub open spec fn digit_run_val(s: Seq<char>, i: int, j: int, hex: bool) -> int
    decreases j - i,
{
    if j <= i {
        0
    } else {
        digit_run_val(s, i, j - 1, hex) * (if hex {
            16int
        } else {
            10int
        }) + hex_digit_val(s[j - 1])
    }
}

pub proof fn lemma_digit_run_end(s: Seq<char>, i: int, hex: bool)
    requires
        0 <= i <= s.len(),
    ensures
        i <= digit_run_end(s, i, hex) <= s.len(),
        forall|k: int|
            i <= k < digit_run_end(s, i, hex) ==> (if hex {
                is_hex_digit(#[trigger] s[k])
            } else {
                is_dec_digit(s[k])
            }),
        digit_run_end(s, i, hex) == s.len() || !(if hex {
            is_hex_digit(s[digit_run_end(s, i, hex)])
        } else {
            is_dec_digit(s[digit_run_end(s, i, hex)])
        }),
    decreases s.len() - i,
{
    if i < s.len() && (if hex {
        is_hex_digit(s[i])
    } else {
        is_dec_digit(s[i])
    }) {
        lemma_digit_run_end(s, i + 1, hex);
    }
}

/// Digit-run values are non-negative.
pub proof fn lemma_digit_run_nonneg(s: Seq<char>, i: int, j: int, hex: bool)
    requires
        forall|m: int|
            i <= m < j ==> (if hex {
                is_hex_digit(#[trigger] s[m])
            } else {
                is_dec_digit(s[m])
            }),
    ensures
        digit_run_val(s, i, j, hex) >= 0,
    decreases j - i,
{
    if j > i {
        lemma_digit_run_nonneg(s, i, j - 1, hex);
        assert(hex_digit_val(s[j - 1]) >= 0);
    }
}

/// Digit-run values grow with more digits.
pub proof fn lemma_digit_run_monotone(s: Seq<char>, i: int, j: int, k: int, hex: bool)
    requires
        i <= j <= k,
        forall|m: int|
            i <= m < k ==> (if hex {
                is_hex_digit(#[trigger] s[m])
            } else {
                is_dec_digit(s[m])
            }),
    ensures
        0 <= digit_run_val(s, i, j, hex) <= digit_run_val(s, i, k, hex),
    decreases k - j,
{
    lemma_digit_run_nonneg(s, i, j, hex);
    if j < k {
        lemma_digit_run_monotone(s, i, j, k - 1, hex);
        lemma_digit_run_nonneg(s, i, k - 1, hex);
        assert(hex_digit_val(s[k - 1]) >= 0);
    }
}

/// Relies on `char::from_u32` of std: `Some` exactly for Unicode scalar
/// values (at most 0x10FFFF and not a surrogate), converting the value.
#[verifier::external_body]
fn char_from_u32(n: u32) -> (r: Option<char>)
    ensures
        r is Some <==> (n <= 0x10FFFF && !(0xD800 <= n && n <= 0xDFFF)),
        r is Some ==> r->0 as u32 == n,
{
    char::from_u32(n)
}

/// The value of a decimal digit.
fn dec_val(c: char) -> (r: Option<u32>)
    ensures
        r is Some <==> ('0' <= c && c <= '9'),
        r is Some ==> r->0 < 10 && r->0 == c as u32 - 48,
{
    if '0' <= c && c <= '9' {
        Some(c as u32 - 48)
    } else {
        None
    }
}

/// The value of a hexadecimal digit, either case.
fn hex_val(c: char) -> (r: Option<u32>)
    ensures
        r is Some <==> ('0' <= c && c <= '9') || ('a' <= c && c <= 'f') || ('A' <= c && c <= 'F'),
        r is Some ==> r->0 < 16,
        '0' <= c && c <= '9' ==> r == Some((c as u32 - 48) as u32),
        'a' <= c && c <= 'f' ==> r == Some((c as u32 - 87) as u32),
        'A' <= c && c <= 'F' ==> r == Some((c as u32 - 55) as u32),
{
    if '0' <= c && c <= '9' {
        Some(c as u32 - 48)
    } else if 'a' <= c && c <= 'f' {
        Some(c as u32 - 87)
    } else if 'A' <= c && c <= 'F' {
        Some(c as u32 - 55)
    } else {
        None
    }
}

/// Decodes the entity reference that starts at `pos`: one of the five
/// built-in named entities, a decimal character reference `&#N;`, or a
/// hexadecimal one `&#xN;`. Fails with `MalformedEntity` at `pos` when the
/// reference is unterminated, names an unknown entity, or denotes no
/// Unicode scalar value.
pub fn decode_entity(t: &Vec<char>, pos: usize) -> (r: Result<(char, usize), ParseError>)
    requires
        pos < t@.len(),
        t@[pos as int] == '&',
    ensures
        r is Ok ==> pos < r->Ok_0.1 <= t@.len(),
        r is Err ==> r->Err_0.kind is MalformedEntity,
        pos + 4 < t@.len() && t@[pos + 1] == 'a' && t@[pos + 2] == 'm' && t@[pos + 3] == 'p'
            && t@[pos + 4] == ';' ==> r is Ok && r->Ok_0.0 == '&' && r->Ok_0.1 == pos + 5,
        pos + 3 < t@.len() && t@[pos + 1] == 'l' && t@[pos + 2] == 't' && t@[pos + 3] == ';'
            ==> r is Ok && r->Ok_0.0 == '<' && r->Ok_0.1 == pos + 4,
        pos + 3 < t@.len() && t@[pos + 1] == 'g' && t@[pos + 2] == 't' && t@[pos + 3] == ';'
            ==> r is Ok && r->Ok_0.0 == '>' && r->Ok_0.1 == pos + 4,
        pos + 5 < t@.len() && t@[pos + 1] == 'q' && t@[pos + 2] == 'u' && t@[pos + 3] == 'o'
            && t@[pos + 4] == 't' && t@[pos + 5] == ';' ==> r is Ok && r->Ok_0.0 == '"'
            && r->Ok_0.1 == pos + 6,
        pos + 5 < t@.len() && t@[pos + 1] == 'a' && t@[pos + 2] == 'p' && t@[pos + 3] == 'o'
            && t@[pos + 4] == 's' && t@[pos + 5] == ';' ==> r is Ok && r->Ok_0.0 == '\''
            && r->Ok_0.1 == pos + 6,
        ({
            let dend = digit_run_end(t@, pos + 2, false);
            let v = digit_run_val(t@, pos + 2, dend, false);
            (pos + 2 < t@.len() && t@[pos + 1] == '#' && is_dec_digit(t@[pos + 2])
                && dend < t@.len() && t@[dend] == ';' && v <= 0x10FFFF && !(0xD800 <= v && v
                <= 0xDFFF)) ==> (r is Ok && r->Ok_0.0 as u32 == v && r->Ok_0.1 == dend + 1)
        }),
        ({
            let hend = digit_run_end(t@, pos + 3, true);
            let v = digit_run_val(t@, pos + 3, hend, true);
            (pos + 3 < t@.len() && t@[pos + 1] == '#' && t@[pos + 2] == 'x' && is_hex_digit(
                t@[pos + 3],
            ) && hend < t@.len() && t@[hend] == ';' && v <= 0x10FFFF && !(0xD800 <= v && v
                <= 0xDFFF)) ==> (r is Ok && r->Ok_0.0 as u32 == v && r->Ok_0.1 == hend + 1)
        }),
{
    let n = t.len();
    if n - pos >= 2 && t[pos + 1] == '#' {
        if n - pos >= 3 && t[pos + 2] == 'x' {
            let ghost hend = digit_run_end(t@, pos + 3, true);
            let ghost hv = digit_run_val(t@, pos + 3, hend, true);
            let ghost hprem = pos + 3 < t@.len() && is_hex_digit(t@[pos + 3]) && hend < t@.len()
                && t@[hend] == ';' && hv <= 0x10FFFF;
            proof {
                lemma_digit_run_end(t@, pos + 3, true);
            }
            let mut p = pos + 3;
            let mut val: u32 = 0;
            let mut digits: usize = 0;
            let mut run = true;
            while run
                invariant
                    pos + 3 <= p <= n,
                    n == t@.len(),
                    val < 0x2000000,
                    (digits == 1) == (p > pos + 3),
                    forall|m: int| pos + 3 <= m < p ==> is_hex_digit(#[trigger] t@[m]),
                    !run ==> p == n || !is_hex_digit(t@[p as int]),
                    hend == digit_run_end(t@, pos + 3, true),
                    hv == digit_run_val(t@, pos + 3, hend, true),
                    hprem ==> hend < t@.len() && t@[hend] == ';' && hv <= 0x10FFFF,
                    hprem ==> p as int <= hend && val == digit_run_val(t@, pos + 3, p as int, true),
                decreases n - p, (if run { 1int } else { 0int }),
            {
                if p >= n {
                    run = false;
                } else {
                    match hex_val(t[p]) {
                        Some(d) => {
                            proof {
                                if hprem {
                                    lemma_digit_run_end(t@, pos + 3, true);
                                    assert((p as int) < hend);
                                    lemma_digit_run_monotone(t@, pos + 3, p + 1, hend, true);
                                }
                            }
                            if val > 0x10FFFF {
                                val = 0x110000;
                            } else {
                                val = val * 16 + d;
                            }
                            digits = 1;
                            p = p + 1;
                        },
                        None => {
                            run = false;
                        },
                    }
                }
            }
            proof {
                if hprem {
                    assert(p as int == hend);
                }
            }
            if digits == 1 && p < n && t[p] == ';' {
                match char_from_u32(val) {
                    Some(c) => Ok((c, p + 1)),
                    None => Err(entity_err(t, pos)),
                }
            } else {
                Err(entity_err(t, pos))
            }
        } else {
            let ghost dend = digit_run_end(t@, pos + 2, false);
            let ghost dv = digit_run_val(t@, pos + 2, dend, false);
            let ghost dprem = pos + 2 < t@.len() && is_dec_digit(t@[pos + 2]) && dend < t@.len()
                && t@[dend] == ';' && dv <= 0x10FFFF;
            proof {
                lemma_digit_run_end(t@, pos + 2, false);
            }
            let mut p = pos + 2;
            let mut val: u32 = 0;
            let mut digits: usize = 0;
            let mut run = true;
            while run
                invariant
                    pos + 2 <= p <= n,
                    n == t@.len(),
                    val < 0x2000000,
                    (digits == 1) == (p > pos + 2),
                    forall|m: int| pos + 2 <= m < p ==> is_dec_digit(#[trigger] t@[m]),
                    !run ==> p == n || !is_dec_digit(t@[p as int]),
                    dend == digit_run_end(t@, pos + 2, false),
                    dv == digit_run_val(t@, pos + 2, dend, false),
                    dprem ==> dend < t@.len() && t@[dend] == ';' && dv <= 0x10FFFF,
                    dprem ==> p as int <= dend && val == digit_run_val(
                        t@,
                        pos + 2,
                        p as int,
                        false,
                    ),
                decreases n - p, (if run { 1int } else { 0int }),
            {
                if p >= n {
                    run = false;
                } else {
                    match dec_val(t[p]) {
                        Some(d) => {
                            proof {
                                if dprem {
                                    lemma_digit_run_end(t@, pos + 2, false);
                                    assert((p as int) < dend);
                                    lemma_digit_run_monotone(t@, pos + 2, p + 1, dend, false);
                                }
                            }
                            if val > 0x10FFFF {
                                val = 0x110000;
                            } else {
                                val = val * 10 + d;
                            }
                            digits = 1;
                            p = p + 1;
                        },
                        None => {
                            run = false;
                        },
                    }
                }
            }
            proof {
                if dprem {
                    assert(p as int == dend);
                }
            }
            if digits == 1 && p < n && t[p] == ';' {
                match char_from_u32(val) {
                    Some(c) => Ok((c, p + 1)),
                    None => Err(entity_err(t, pos)),
                }
            } else {
                Err(entity_err(t, pos))
            }
        }
    } else if n - pos >= 4 && t[pos + 1] == 'a' && t[pos + 2] == 'm' && t[pos + 3] == 'p' && n - pos
        >= 5 && t[pos + 4] == ';' {
        Ok(('&', pos + 5))
    } else if n - pos >= 4 && t[pos + 1] == 'l' && t[pos + 2] == 't' && t[pos + 3] == ';' {
        Ok(('<', pos + 4))
    } else if n - pos >= 4 && t[pos + 1] == 'g' && t[pos + 2] == 't' && t[pos + 3] == ';' {
        Ok(('>', pos + 4))
    } else if n - pos >= 6 && t[pos + 1] == 'q' && t[pos + 2] == 'u' && t[pos + 3] == 'o' && t[pos
        + 4] == 't' && t[pos + 5] == ';' {
        Ok(('"', pos + 6))
    } else if n - pos >= 6 && t[pos + 1] == 'a' && t[pos + 2] == 'p' && t[pos + 3] == 'o' && t[pos
        + 4] == 's' && t[pos + 5] == ';' {
        Ok(('\'', pos + 6))
    } else {
        Err(entity_err(t, pos))
    }
}

/// Scans the text run that starts at `pos`, decoding entity references,
/// until the next `<` or the end of the input.
pub fn scan_text(t: &Vec<char>, pos: usize) -> (r: Result<(Vec<char>, usize), ParseError>)
    requires
        pos < t@.len(),
        t@[pos as int] != '<',
    ensures
        (forall|k: int| pos <= k < t@.len() ==> (#[trigger] t@[k]) != '&') ==> r is Ok,
        r is Ok ==> ({
            let (txt, np) = r->Ok_0;
            &&& pos < np <= t@.len()
            &&& np == t@.len() || t@[np as int] == '<'
            &&& (forall|k: int| pos <= k < np ==> (#[trigger] t@[k]) != '&') ==> txt@
                == t@.subrange(pos as int, np as int)
        }),
{
    let n = t.len();
    let mut p = pos;
    let mut buf: Vec<char> = Vec::new();
    while p < n && t[p] != '<'
        invariant
            pos <= p <= n,
            n == t@.len(),
            p == pos ==> (p < n && t@[p as int] != '<'),
            (forall|k: int| pos <= k < p ==> (#[trigger] t@[k]) != '&') ==> buf@ == t@.subrange(
                pos as int,
                p as int,
            ),
        decreases n - p,
    {
        if t[p] == '&' {
            match decode_entity(t, p) {
                Ok((c, np)) => {
                    buf.push(c);
                    p = np;
                },
                Err(e) => {
                    return Err(e);
                },
            }
        } else {
            buf.push(t[p]);
            proof {
                if forall|k: int| pos <= k < p + 1 ==> (#[trigger] t@[k]) != '&' {
                    assert(buf@ =~= t@.subrange(pos as int, p + 1));
                }
            }
            p = p + 1;
        }
    }
    Ok((buf, p))
}

/// Reads the next token outside of any tag. On success the new position
/// lies strictly beyond `pos`; a start or end tag name is a valid XML
/// name, comment, CDATA and processing-instruction content is free of its
/// own terminator.
pub fn next_content_token(t: &Vec<char>, pos: usize) -> (r: Result<(Token, usize), ParseError>)
    requires
        pos < t@.len(),
    ensures
        t@[pos as int] != '<' && (forall|k: int|
            pos <= k < t@.len() ==> (#[trigger] t@[k]) != '&') ==> r is Ok,
        t@[pos as int] == '<' && pos + 1 < t@.len() && is_name_start_char(t@[pos + 1]) ==> r is Ok
            && r->Ok_0.0 is StartTagOpen,
        r is Ok ==> ({
            let (tok, np) = r->Ok_0;
            &&& pos < np <= t@.len()
            &&& (tok is TextRun <==> t@[pos as int] != '<')
            &&& match tok {
                Token::StartTagOpen(nm) => valid_name(nm@) && nm@ == t@.subrange(
                    pos + 1,
                    np as int,
                ) && (np == t@.len() || !is_name_char(t@[np as int])),
                Token::EndTag(nm) => valid_name(nm@) && nm@ == t@.subrange(
                    pos + 2,
                    pos + 2 + nm@.len(),
                ),
                Token::Comment(c) => c@ == t@.subrange(pos + 4, np - 3) && !contains_seq(
                    c@,
                    seq!['-', '-', '>'],
                ),
                Token::CData(c) => c@ == t@.subrange(pos + 9, np - 3) && !contains_seq(
                    c@,
                    seq![']', ']', '>'],
                ),
                Token::PI { target, data } => valid_name(target@) && !contains_seq(
                    data@,
                    seq!['?', '>'],
                ),
                Token::TextRun(txt) => (np == t@.len() || t@[np as int] == '<') && ((forall|k: int|
                    pos <= k < np ==> (#[trigger] t@[k]) != '&') ==> txt@ == t@.subrange(
                    pos as int,
                    np as int,
                )),
                Token::Doctype(d) => d@ == t@.subrange(pos + 9, np - 1),
                _ => false,
            }
        }),
{
    let n = t.len();
    if t[pos] != '<' {
        match scan_text(t, pos) {
            Ok((txt, np)) => Ok((Token::TextRun(txt), np)),
            Err(e) => Err(e),
        }
    } else if n - pos >= 4 && t[pos + 1] == '!' && t[pos + 2] == '-' && t[pos + 3] == '-' {
        match scan_to_3(t, pos + 4, '-', '-', '>') {
            Some(j) => {
                let content = sub_vec(t, pos + 4, j);
                proof {
                    lemma_scan3_content(t@, pos + 4, j as int, '-', '-', '>');
                }
                Ok((Token::Comment(content), j + 3))
            },
            None => Err(lex_err(t, pos)),
        }
    } else if n - pos >= 9 && t[pos + 1] == '!' && t[pos + 2] == '[' && t[pos + 3] == 'C' && t[pos
        + 4] == 'D' && t[pos + 5] == 'A' && t[pos + 6] == 'T' && t[pos + 7] == 'A' && t[pos + 8]
        == '[' {
        match scan_to_3(t, pos + 9, ']', ']', '>') {
            Some(j) => {
                let content = sub_vec(t, pos + 9, j);
                proof {
                    lemma_scan3_content(t@, pos + 9, j as int, ']', ']', '>');
                }
                Ok((Token::CData(content), j + 3))
            },
            None => Err(lex_err(t, pos)),
        }
    } else if n - pos >= 9 && t[pos + 1] == '!' && t[pos + 2] == 'D' && t[pos + 3] == 'O' && t[pos
        + 4] == 'C' && t[pos + 5] == 'T' && t[pos + 6] == 'Y' && t[pos + 7] == 'P' && t[pos + 8]
        == 'E' {
        match scan_to_1(t, pos + 9, '>') {
            Some(j) => Ok((Token::Doctype(sub_vec(t, pos + 9, j)), j + 1)),
            None => Err(lex_err(t, pos)),
        }
    } else if n - pos >= 2 && t[pos + 1] == '!' {
        Err(lex_err(t, pos))
    } else if n - pos >= 2 && t[pos + 1] == '?' {
        match scan_name(t, pos + 2) {
            Some((target, p2)) => {
                if n - p2 >= 2 && t[p2] == '?' && t[p2 + 1] == '>' {
                    Ok((Token::PI { target, data: Vec::new() }, p2 + 2))
                } else if p2 < n && xml_space(t[p2]) {
                    let p3 = skip_ws(t, p2);
                    match scan_to_2(t, p3, '?', '>') {
                        Some(j) => {
                            let data = sub_vec(t, p3, j);
                            proof {
                                lemma_scan2_content(t@, p3 as int, j as int, '?', '>');
                            }
                            Ok((Token::PI { target, data }, j + 2))
                        },
                        None => Err(lex_err(t, pos)),
                    }
                } else {
                    Err(lex_err(t, p2))
                }
            },
            None => Err(lex_err(t, pos)),
        }
    } else if n - pos >= 2 && t[pos + 1] == '/' {
        match scan_name(t, pos + 2) {
            Some((name, p2)) => {
                let p3 = skip_ws(t, p2);
                if p3 < n && t[p3] == '>' {
                    Ok((Token::EndTag(name), p3 + 1))
                } else {
                    Err(lex_err(t, p3))
                }
            },
            None => Err(lex_err(t, pos)),
        }
    } else {
        match scan_name(t, pos + 1) {
            Some((name, p2)) => Ok((Token::StartTagOpen(name), p2)),
            None => Err(lex_err(t, pos)),
        }
    }
}

/// Reads the next token inside a start tag: an attribute name, `>`, or
/// `/>`. Fails at the end of the input (unterminated tag) or on a
/// character that starts none of the three.
pub fn next_tag_token(t: &Vec<char>, pos: usize) -> (r: Result<(Token, usize), ParseError>)
    requires
        pos <= t@.len(),
    ensures
        r is Ok ==> ({
            let (tok, np) = r->Ok_0;
            &&& pos < np <= t@.len()
            &&& match tok {
                Token::AttrName(nm) => valid_name(nm@) && nm@ == t@.subrange(
                    ws_end(t@, pos as int),
                    np as int,
                ) && (np == t@.len() || !is_name_char(t@[np as int])),
                Token::StartTagClose => np == ws_end(t@, pos as int) + 1,
                Token::SelfCloseTag => np == ws_end(t@, pos as int) + 2,
                _ => false,
            }
        }),
        ({
            let p = ws_end(t@, pos as int);
            &&& (p < t@.len() && t@[p] == '>' ==> r is Ok && r->Ok_0.0 is StartTagClose)
            &&& (p + 2 <= t@.len() && t@[p] == '/' && t@[p + 1] == '>' ==> r is Ok
                && r->Ok_0.0 is SelfCloseTag)
            &&& (p < t@.len() && is_name_start_char(t@[p]) ==> r is Ok && r->Ok_0.0 is AttrName)
        }),
{
    let n = t.len();
    let p = skip_ws(t, pos);
    if p >= n {
        Err(lex_err(t, p))
    } else if t[p] == '>' {
        Ok((Token::StartTagClose, p + 1))
    } else if t[p] == '/' {
        if n - p >= 2 && t[p + 1] == '>' {
            Ok((Token::SelfCloseTag, p + 2))
        } else {
            Err(lex_err(t, p))
        }
    } else {
        match scan_name(t, p) {
            Some((nm, p2)) => Ok((Token::AttrName(nm), p2)),
            None => Err(lex_err(t, p)),
        }
    }
}

/// Reads an attribute value after its name: optional whitespace, `=`,
/// optional whitespace, then a quoted value with entities decoded. A raw
/// `<` inside the value is malformed markup.
pub fn next_attr_value(t: &Vec<char>, pos: usize) -> (r: Result<(Token, usize), ParseError>)
    requires
        pos <= t@.len(),
    ensures
        r is Ok ==> pos < r->Ok_0.1 <= t@.len() && r->Ok_0.0 is AttrValue,
        ({
            let p = ws_end(t@, pos as int);
            let p2 = ws_end(t@, p + 1);
            let q = find_char(t@, p2 + 1, t@[p2]);
            (p < t@.len() && t@[p] == '=' && p2 < t@.len() && (t@[p2] == '"' || t@[p2] == '\'')
                && q < t@.len() && (forall|k: int|
                p2 < k < q ==> (#[trigger] t@[k]) != '&' && t@[k] != '<')) ==> (r is Ok
                && r->Ok_0.0 is AttrValue && r->Ok_0.0->AttrValue_0@ == t@.subrange(p2 + 1, q)
                && r->Ok_0.1 == q + 1)
        }),
{
    let n = t.len();
    let p = skip_ws(t, pos);
    if p >= n || t[p] != '=' {
        return Err(lex_err(t, p));
    }
    let p2 = skip_ws(t, p + 1);
    if p2 >= n {
        return Err(lex_err(t, p2));
    }
    let q = t[p2];
    if q != '"' && q != '\'' {
        return Err(lex_err(t, p2));
    }
    let ghost fq = find_char(t@, p2 + 1, t@[p2 as int]);
    let ghost prem = fq < t@.len() && (forall|k: int|
        p2 < k < fq ==> (#[trigger] t@[k]) != '&' && t@[k] != '<');
    proof {
        lemma_find_char(t@, p2 + 1, t@[p2 as int]);
    }
    let mut p3 = p2 + 1;
    let mut buf: Vec<char> = Vec::new();
    while p3 < n && t[p3] != q
        invariant
            p2 + 1 <= p3 <= n,
            n == t@.len(),
            p2 < n,
            q == t@[p2 as int],
            q == '"' || q == '\'',
            p as int == ws_end(t@, pos as int),
            p2 as int == ws_end(t@, p + 1),
            fq == find_char(t@, p2 + 1, t@[p2 as int]),
            prem <==> (fq < t@.len() && (forall|k: int|
                p2 < k < fq ==> (#[trigger] t@[k]) != '&' && t@[k] != '<')),
            prem ==> p3 as int <= fq && buf@ == t@.subrange(p2 + 1, p3 as int),
            prem ==> t@[fq] == q && (forall|k: int| p2 + 1 <= k < fq ==> (#[trigger] t@[k]) != q),
        decreases n - p3,
    {
        proof {
            if prem && p3 as int == fq {
                assert(t@[p3 as int] == q);
                assert(false);
            }
        }
        if t[p3] == '<' {
            proof {
                if prem {
                    assert(t@[p3 as int] != '<');
                }
            }
            return Err(lex_err(t, p3));
        }
        if t[p3] == '&' {
            proof {
                if prem {
                    assert(t@[p3 as int] != '&');
                }
            }
            match decode_entity(t, p3) {
                Ok((c, np)) => {
                    buf.push(c);
                    p3 = np;
                },
                Err(e) => {
                    return Err(e);
                },
            }
        } else {
            buf.push(t[p3]);
            proof {
                if prem {
                    assert(buf@ =~= t@.subrange(p2 + 1, p3 + 1));
                }
            }
            p3 = p3 + 1;
        }
    }
    proof {
        if prem {
            assert(p3 as int == fq);
        }
    }
    if p3 >= n {
        Err(lex_err(t, p3))
    } else {
        Ok((Token::AttrValue(buf), p3 + 1))
    }
}

} // verus!
