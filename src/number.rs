//! The line-number field that precedes a numbered line.
use vstd::prelude::*;

verus! {

/// ASCII code of the digit zero.
pub const ZERO: u8 = 48;

/// ASCII space.
pub const SPACE: u8 = 32;

/// ASCII horizontal tab.
pub const TAB: u8 = 9;

/// Minimum width of the number field, not counting its tab.
pub const FIELD_WIDTH: usize = 6;

/// The decimal digits of `n`, most significant first, with no leading zeros
/// (zero is the single digit `0`).
pub open spec fn decimal(n: nat) -> Seq<u8>
    decreases n,
{
    if n < 10 {
        seq![(ZERO + n) as u8]
    } else {
        decimal(n / 10).push((ZERO + n % 10) as u8)
    }
}

/// `k` space bytes.
pub open spec fn spaces(k: nat) -> Seq<u8> {
    Seq::new(k, |i: int| SPACE)
}

/// The field written before a numbered line: the decimal digits of `n`,
/// right-justified with spaces to a width of six (wider numbers take exactly
/// their digits), then one tab.
#[verifier::opaque]
pub open spec fn number_field(n: nat) -> Seq<u8> {
    let d = decimal(n);
    let pad: nat = if d.len() < FIELD_WIDTH {
        (FIELD_WIDTH - d.len()) as nat
    } else {
        0
    };
    spaces(pad) + d + seq![TAB]
}

/// Appends the decimal digits of `n` to `out`.
fn push_decimal(out: &mut Vec<u8>, n: u64)
    ensures
        final(out)@ == old(out)@ + decimal(n as nat),
    decreases n,
{
    if n >= 10 {
        push_decimal(out, n / 10);
    }
    let d: u8 = (n % 10) as u8;
    out.push(ZERO + d);
    proof {
        if n >= 10 {
            assert(decimal(n as nat) == decimal((n / 10) as nat).push((ZERO + n % 10) as u8));
        }
    }
}

/// Appends the line-number field for `n` to `out`.
pub fn write_line_number(out: &mut Vec<u8>, n: u64)
    ensures
        final(out)@ == old(out)@ + number_field(n as nat),
{
    let mut digits: Vec<u8> = Vec::new();
    push_decimal(&mut digits, n);
    assert(digits@ =~= decimal(n as nat));
    let ghost start = out@;
    let mut k: usize = digits.len();
    while k < FIELD_WIDTH
        invariant
            digits@ == decimal(n as nat),
            digits.len() <= k,
            k <= FIELD_WIDTH || k == digits.len(),
            out@ == start + spaces((k - digits.len()) as nat),
        decreases FIELD_WIDTH - k,
    {
        out.push(SPACE);
        assert(spaces((k + 1 - digits.len()) as nat) =~= spaces((k - digits.len()) as nat).push(SPACE));
        k = k + 1;
    }
    out.append(&mut digits);
    out.push(TAB);
    reveal(number_field);
    assert(out@ =~= start + number_field(n as nat));
}

} // verus!
