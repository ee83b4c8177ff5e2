//! The textual forms of scalars, and escaping for element text.

use vstd::prelude::*;
use crate::de::escape::{lit_false, lit_true};
use crate::de::number::{all_digits, digits_value, integer_in, is_digit};

verus! {

/// The decimal digits of `n`, without leading zeros.
pub open spec fn render_nat(n: nat) -> Seq<u8>
    decreases n,
{
    if n < 10 {
        seq![('0' as u8 + n) as u8]
    } else {
        render_nat(n / 10).push(('0' as u8 + n % 10) as u8)
    }
}

/// The decimal literal of `v`: its digits, after a minus sign where it is
/// negative.
pub open spec fn render_int(v: int) -> Seq<u8> {
    if v < 0 {
        seq!['-' as u8] + render_nat((-v) as nat)
    } else {
        render_nat(v as nat)
    }
}

/// The literal of a boolean.
pub open spec fn render_bool(b: bool) -> Seq<u8> {
    if b {
        lit_true()
    } else {
        lit_false()
    }
}

/// What stands for the byte `b` in escaped text: an entity reference for a
/// character of markup, the byte itself for any other. The quote characters
/// are escaped where `quotes`, as within an attribute's value.
pub open spec fn escape_byte(b: u8, quotes: bool) -> Seq<u8> {
    if b == '<' as u8 {
        seq!['&' as u8, 'l' as u8, 't' as u8, ';' as u8]
    } else if b == '>' as u8 {
        seq!['&' as u8, 'g' as u8, 't' as u8, ';' as u8]
    } else if b == '&' as u8 {
        seq!['&' as u8, 'a' as u8, 'm' as u8, 'p' as u8, ';' as u8]
    } else if quotes && b == '\'' as u8 {
        seq!['&' as u8, 'a' as u8, 'p' as u8, 'o' as u8, 's' as u8, ';' as u8]
    } else if quotes && b == '"' as u8 {
        seq!['&' as u8, 'q' as u8, 'u' as u8, 'o' as u8, 't' as u8, ';' as u8]
    } else {
        seq![b]
    }
}

/// The bytes `raw` escaped, byte by byte.
pub open spec fn escaped(raw: Seq<u8>, quotes: bool) -> Seq<u8>
    decreases raw.len(),
{
    if raw.len() == 0 {
        Seq::empty()
    } else {
        escaped(raw.drop_last(), quotes) + escape_byte(raw.last(), quotes)
    }
}

/// The digits of a number are digits, and write that number.
pub proof fn lemma_render_nat(n: nat)
    ensures
        render_nat(n).len() > 0,
        all_digits(render_nat(n)),
        digits_value(render_nat(n)) == n,
    decreases n,
{
    if n < 10 {
        assert(render_nat(n).drop_last() =~= Seq::<u8>::empty());
        assert(digits_value(render_nat(n).drop_last()) == 0);
    } else {
        lemma_render_nat(n / 10);
        let r = render_nat(n);
        assert(r.drop_last() =~= render_nat(n / 10));
        assert forall|i: int| 0 <= i < r.len() implies is_digit(#[trigger] r[i]) by {
            if i < r.len() - 1 {
                assert(r[i] == render_nat(n / 10)[i]);
            }
        }
    }
}

/// Reading the literal of an integer gives the integer back: rendering and
/// parsing are inverse on every integer of a type's range.
pub proof fn lemma_integer_round_trip(v: int, min: int, max: int)
    requires
        min <= v <= max,
        min <= 0,
    ensures
        integer_in(render_int(v), min, max) == Some(v),
{
    if v < 0 {
        let n = (-v) as nat;
        lemma_render_nat(n);
        assert(render_int(v).drop_first() =~= render_nat(n));
        assert(render_int(v)[0] == '-' as u8);
    } else {
        let n = v as nat;
        lemma_render_nat(n);
        assert(is_digit(render_nat(n)[0]));
    }
}

/// Appends the decimal digits of `n` to `out`.
pub fn write_nat(n: u64, out: &mut Vec<u8>)
    ensures
        final(out)@ == old(out)@ + render_nat(n as nat),
    decreases n,
{
    if n >= 10 {
        write_nat(n / 10, out);
    }
    out.push('0' as u8 + (n % 10) as u8);
    assert(final(out)@ =~= old(out)@ + render_nat(n as nat)) by {
        if n >= 10 {
            assert(old(out)@ + render_nat(n as nat) =~= (old(out)@ + render_nat((n / 10) as nat)).push(
                ('0' as u8 + n % 10) as u8,
            ));
        }
    }
}

/// The decimal literal of an unsigned integer.
pub fn unsigned_text(n: u64) -> (text: Vec<u8>)
    ensures
        text@ == render_int(n as int),
{
    let mut out: Vec<u8> = Vec::new();
    write_nat(n, &mut out);
    assert(out@ =~= render_nat(n as nat));
    out
}

/// The decimal literal of a signed integer.
pub fn signed_text(v: i64) -> (text: Vec<u8>)
    ensures
        text@ == render_int(v as int),
{
    let mut out: Vec<u8> = Vec::new();
    if v < 0 {
        out.push('-' as u8);
        write_nat((-(v as i128)) as u64, &mut out);
    } else {
        write_nat(v as u64, &mut out);
    }
    assert(out@ =~= render_int(v as int));
    out
}

/// The literal of a boolean: `true` or `false`.
pub fn bool_text(b: bool) -> (text: Vec<u8>)
    ensures
        text@ == render_bool(b),
{
    let mut out: Vec<u8> = Vec::new();
    if b {
        out.push('t' as u8);
        out.push('r' as u8);
        out.push('u' as u8);
        out.push('e' as u8);
    } else {
        out.push('f' as u8);
        out.push('a' as u8);
        out.push('l' as u8);
        out.push('s' as u8);
        out.push('e' as u8);
    }
    assert(out@ =~= render_bool(b));
    out
}

/// Escapes `raw` for element text: the characters of markup `<`, `>` and `&`
/// become entity references, and quotes stay as they are.
pub fn escape_text(raw: &[u8]) -> (text: Vec<u8>)
    ensures
        text@ == escaped(raw@, false),
{
    let mut out: Vec<u8> = Vec::new();
    let mut i: usize = 0;
    while i < raw.len()
        invariant
            i <= raw@.len(),
            out@ == escaped(raw@.subrange(0, i as int), false),
        decreases raw@.len() - i,
    {
        let b = raw[i];
        let ghost before = out@;
        if b == '<' as u8 {
            out.push('&' as u8);
            out.push('l' as u8);
            out.push('t' as u8);
            out.push(';' as u8);
        } else if b == '>' as u8 {
            out.push('&' as u8);
            out.push('g' as u8);
            out.push('t' as u8);
            out.push(';' as u8);
        } else if b == '&' as u8 {
            out.push('&' as u8);
            out.push('a' as u8);
            out.push('m' as u8);
            out.push('p' as u8);
            out.push(';' as u8);
        } else {
            out.push(b);
        }
        proof {
            let next = raw@.subrange(0, i + 1);
            assert(next.drop_last() =~= raw@.subrange(0, i as int));
            assert(next.last() == b);
            assert(out@ =~= before + escape_byte(b, false));
        }
        i += 1;
    }
    assert(raw@.subrange(0, i as int) =~= raw@);
    out
}

} // verus!
