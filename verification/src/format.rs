//! Decimal rendering of line numbers: the digits of a number, right-aligned
//! with spaces to a field of width six and followed by a single space.

use vstd::prelude::*;

verus! {

/// The ASCII space byte.
pub const SPACE: u8 = 32;

/// The decimal digits of `n`, most significant first, as ASCII bytes.
pub open spec fn dec_digits(n: nat) -> Seq<u8>
    decreases n,
{
    if n < 10 {
        seq![(48 + n) as u8]
    } else {
        dec_digits(n / 10).push((48 + n % 10) as u8)
    }
}

/// `k` ASCII space bytes.
pub open spec fn spaces(k: nat) -> Seq<u8> {
    Seq::new(k, |i: int| SPACE)
}

/// The rendered line-number field: the decimal digits of `n`, right-aligned
/// with spaces to a width of six, followed by one space.
pub open spec fn number_field(n: nat) -> Seq<u8> {
    let d = dec_digits(n);
    let pad = if d.len() < 6 {
        (6 - d.len()) as nat
    } else {
        0nat
    };
    spaces(pad) + d + seq![SPACE]
}

/// Appends the decimal digits of `n` to `out`, most significant first.
fn push_digits(n: u64, out: &mut Vec<u8>)
    ensures
        final(out)@ == old(out)@ + dec_digits(n as nat),
    decreases n,
{
    if n < 10 {
        out.push((48 + n) as u8);
        assert(out@ =~= old(out)@ + dec_digits(n as nat));
    } else {
        push_digits(n / 10, out);
        out.push((48 + n % 10) as u8);
        assert(out@ =~= old(out)@ + dec_digits(n as nat));
    }
}

/// Renders `n` as a line-number field: right-aligned in six characters,
/// followed by a single space.
pub fn format_line_number(n: u64) -> (r: Vec<u8>)
    ensures
        r@ == number_field(n as nat),
{
    let mut digits: Vec<u8> = Vec::new();
    push_digits(n, &mut digits);
    let pad: usize = if digits.len() < 6 {
        6 - digits.len()
    } else {
        0
    };
    let mut r: Vec<u8> = Vec::new();
    let mut k: usize = 0;
    while k < pad
        invariant
            k <= pad,
            r@ == spaces(k as nat),
        decreases pad - k,
    {
        r.push(SPACE);
        k = k + 1;
        assert(r@ =~= spaces(k as nat));
    }
    let mut i: usize = 0;
    while i < digits.len()
        invariant
            i <= digits@.len(),
            r@ == spaces(pad as nat) + digits@.take(i as int),
        decreases digits@.len() - i,
    {
        r.push(digits[i]);
        i = i + 1;
        assert(r@ =~= spaces(pad as nat) + digits@.take(i as int));
    }
    r.push(SPACE);
    assert(digits@.take(digits@.len() as int) =~= digits@);
    assert(r@ =~= number_field(n as nat));
    r
}

} // verus!
