//! Entity encoding: how reserved and non-ASCII characters of text content
//! and attribute values are written on output.

use vstd::prelude::*;
use crate::config::EntityMode;

verus! {

/// The uppercase hexadecimal digit of value `d`.
pub open spec fn hex_digit(d: nat) -> char {
    if d == 0 {
        '0'
    } else if d == 1 {
        '1'
    } else if d == 2 {
        '2'
    } else if d == 3 {
        '3'
    } else if d == 4 {
        '4'
    } else if d == 5 {
        '5'
    } else if d == 6 {
        '6'
    } else if d == 7 {
        '7'
    } else if d == 8 {
        '8'
    } else if d == 9 {
        '9'
    } else if d == 10 {
        'A'
    } else if d == 11 {
        'B'
    } else if d == 12 {
        'C'
    } else if d == 13 {
        'D'
    } else if d == 14 {
        'E'
    } else {
        'F'
    }
}

/// The uppercase hexadecimal digits of `n`, most significant first, no
/// leading zeros (a single `0` for zero).
pub open spec fn spec_hex(n: nat) -> Seq<char>
    decreases n,
{
    if n < 16 {
        seq![hex_digit(n)]
    } else {
        spec_hex(n / 16).push(hex_digit(n % 16))
    }
}

/// The hexadecimal numeric character reference for `c`: `&#xN;` with the
/// uppercase hex digits of the scalar value of `c`.
pub open spec fn spec_hex_ref(c: char) -> Seq<char> {
    seq!['&', '#', 'x'] + spec_hex(c as nat) + seq![';']
}

/// The minimal reserved set: `&`, `<`, `>` everywhere, `"` inside attribute
/// values.
pub open spec fn is_reserved(c: char, in_attr: bool) -> bool {
    c == '&' || c == '<' || c == '>' || (in_attr && c == '"')
}

/// The named entity for a reserved character.
pub open spec fn named_entity(c: char) -> Seq<char> {
    if c == '&' {
        seq!['&', 'a', 'm', 'p', ';']
    } else if c == '<' {
        seq!['&', 'l', 't', ';']
    } else if c == '>' {
        seq!['&', 'g', 't', ';']
    } else {
        seq!['&', 'q', 'u', 'o', 't', ';']
    }
}

/// A character that hex mode escapes besides the reserved set: non-ASCII
/// or non-printable.
pub open spec fn needs_hex(c: char) -> bool {
    (c as nat) < 0x20 || (c as nat) > 0x7E
}

/// The output spelling of one character of text content (`in_attr` false)
/// or of an attribute value (`in_attr` true).
pub open spec fn spec_escape_char(c: char, in_attr: bool, mode: EntityMode) -> Seq<char> {
    match mode {
        EntityMode::Standard => if is_reserved(c, in_attr) {
            named_entity(c)
        } else {
            seq![c]
        },
        EntityMode::Hex => if is_reserved(c, in_attr) || needs_hex(c) {
            spec_hex_ref(c)
        } else {
            seq![c]
        },
    }
}

/// The output spelling of a whole string, character by character.
pub open spec fn spec_escape(s: Seq<char>, in_attr: bool, mode: EntityMode) -> Seq<char>
    decreases s.len(),
{
    if s.len() == 0 {
        Seq::empty()
    } else {
        spec_escape(s.drop_last(), in_attr, mode) + spec_escape_char(s.last(), in_attr, mode)
    }
}

/// A string without reserved characters is spelled as itself under the
/// standard entity mode.
pub proof fn lemma_escape_standard_identity(s: Seq<char>, in_attr: bool)
    requires
        forall|i: int| 0 <= i < s.len() ==> !is_reserved(#[trigger] s[i], in_attr),
    ensures
        spec_escape(s, in_attr, EntityMode::Standard) == s,
    decreases s.len(),
{
    if s.len() > 0 {
        lemma_escape_standard_identity(s.drop_last(), in_attr);
        assert(spec_escape(s, in_attr, EntityMode::Standard) =~= s);
    } else {
        assert(spec_escape(s, in_attr, EntityMode::Standard) =~= s);
    }
}

/// The executable uppercase hexadecimal digit.
fn hex_digit_exec(d: u32) -> (r: char)
    requires
        d < 16,
    ensures
        r == hex_digit(d as nat),
{
    if d == 0 {
        '0'
    } else if d == 1 {
        '1'
    } else if d == 2 {
        '2'
    } else if d == 3 {
        '3'
    } else if d == 4 {
        '4'
    } else if d == 5 {
        '5'
    } else if d == 6 {
        '6'
    } else if d == 7 {
        '7'
    } else if d == 8 {
        '8'
    } else if d == 9 {
        '9'
    } else if d == 10 {
        'A'
    } else if d == 11 {
        'B'
    } else if d == 12 {
        'C'
    } else if d == 13 {
        'D'
    } else if d == 14 {
        'E'
    } else {
        'F'
    }
}

/// Appends the hexadecimal digits of `n` to `out`.
fn push_hex(out: &mut Vec<char>, n: u32)
    ensures
        final(out)@ == old(out)@ + spec_hex(n as nat),
    decreases n,
{
    if n < 16 {
        out.push(hex_digit_exec(n));
        proof {
            assert(final(out)@ =~= old(out)@ + spec_hex(n as nat));
        }
    } else {
        push_hex(out, n / 16);
        out.push(hex_digit_exec(n % 16));
        proof {
            assert(final(out)@ =~= old(out)@ + spec_hex(n as nat));
        }
    }
}

/// Appends the hexadecimal numeric character reference for `c` to `out`.
fn push_hex_ref(out: &mut Vec<char>, c: char)
    ensures
        final(out)@ == old(out)@ + spec_hex_ref(c),
{
    out.push('&');
    out.push('#');
    out.push('x');
    push_hex(out, c as u32);
    out.push(';');
    proof {
        assert(final(out)@ =~= old(out)@ + spec_hex_ref(c));
    }
}

/// Appends the output spelling of one character to `out`.
fn push_escaped_char(out: &mut Vec<char>, c: char, in_attr: bool, mode: EntityMode)
    ensures
        final(out)@ == old(out)@ + spec_escape_char(c, in_attr, mode),
{
    let reserved = c == '&' || c == '<' || c == '>' || (in_attr && c == '"');
    match mode {
        EntityMode::Standard => {
            if reserved {
                out.push('&');
                if c == '&' {
                    out.push('a');
                    out.push('m');
                    out.push('p');
                } else if c == '<' {
                    out.push('l');
                    out.push('t');
                } else if c == '>' {
                    out.push('g');
                    out.push('t');
                } else {
                    out.push('q');
                    out.push('u');
                    out.push('o');
                    out.push('t');
                }
                out.push(';');
                proof {
                    assert(final(out)@ =~= old(out)@ + spec_escape_char(c, in_attr, mode));
                }
            } else {
                out.push(c);
                proof {
                    assert(final(out)@ =~= old(out)@ + spec_escape_char(c, in_attr, mode));
                }
            }
        },
        EntityMode::Hex => {
            if reserved || (c as u32) < 0x20 || (c as u32) > 0x7E {
                push_hex_ref(out, c);
            } else {
                out.push(c);
                proof {
                    assert(final(out)@ =~= old(out)@ + spec_escape_char(c, in_attr, mode));
                }
            }
        },
    }
}

/// Appends the output spelling of `s` to `out`.
pub fn escape_into(out: &mut Vec<char>, s: &Vec<char>, in_attr: bool, mode: EntityMode)
    ensures
        final(out)@ == old(out)@ + spec_escape(s@, in_attr, mode),
{
    let mut i: usize = 0;
    while i < s.len()
        invariant
            i <= s.len(),
            out@ == old(out)@ + spec_escape(s@.take(i as int), in_attr, mode),
        decreases s.len() - i,
    {
        push_escaped_char(out, s[i], in_attr, mode);
        proof {
            assert(s@.take(i + 1).drop_last() =~= s@.take(i as int));
            assert(s@.take(i + 1).last() == s@[i as int]);
            assert(out@ =~= old(out)@ + spec_escape(s@.take(i + 1), in_attr, mode));
        }
        i = i + 1;
    }
    proof {
        assert(s@.take(s@.len() as int) =~= s@);
    }
}

} // verus!
