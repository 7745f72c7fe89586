//! Byte counts for people: `1536` reads `1.50 KB`. The figures are those of
//! binary floating point with 53 significant bits, rounded half-to-even to
//! two places, computed here in integers.

use crate::text::push_char;
use vstd::prelude::*;
use vstd::string::*;

verus! {

/// Bytes in a kilobyte.
pub const KB: u64 = 0x400;

/// Bytes in a megabyte.
pub const MB: u64 = 0x10_0000;

/// Bytes in a gigabyte.
pub const GB: u64 = 0x4000_0000;

/// The decimal digit for `d`.
pub open spec fn digit(d: nat) -> char {
    if d == 0 {
        '0'
    } else if d == 1 {
        '1'
    } else if d == 2 {
        '2'
    } else if d == 3 {
        '3'
    } else if d == 4 {
        '4'
    } else if d == 5 {
        '5'
    } else if d == 6 {
        '6'
    } else if d == 7 {
        '7'
    } else if d == 8 {
        '8'
    } else {
        '9'
    }
}

/// `n` in decimal, without leading zeros.
pub open spec fn decimal(n: nat) -> Seq<char>
    decreases n,
{
    if n < 10 {
        seq![digit(n)]
    } else {
        decimal(n / 10).push(digit(n % 10))
    }
}

/// The spacing between the values that 53 significant bits can tell apart
/// around `n`: 1 below 2^53, then doubling with every further bit.
pub open spec fn granule(n: nat) -> nat {
    if n < 0x20_0000_0000_0000 {
        1
    } else if n < 0x40_0000_0000_0000 {
        2
    } else if n < 0x80_0000_0000_0000 {
        4
    } else if n < 0x100_0000_0000_0000 {
        8
    } else if n < 0x200_0000_0000_0000 {
        16
    } else if n < 0x400_0000_0000_0000 {
        32
    } else if n < 0x800_0000_0000_0000 {
        64
    } else if n < 0x1000_0000_0000_0000 {
        128
    } else if n < 0x2000_0000_0000_0000 {
        256
    } else if n < 0x4000_0000_0000_0000 {
        512
    } else if n < 0x8000_0000_0000_0000 {
        1024
    } else {
        2048
    }
}

/// `num / den` rounded to the nearest whole number, a tie going to the
/// even neighbour.
pub open spec fn div_half_even(num: nat, den: nat) -> nat
    recommends
        den > 0,
{
    let q = num / den;
    let r = num % den;
    if 2 * r > den || (2 * r == den && q % 2 == 1) {
        q + 1
    } else {
        q
    }
}

/// `n` as 53 significant bits hold it: the nearest multiple of its granule.
pub open spec fn nearest_53(n: nat) -> nat {
    div_half_even(n, granule(n)) * granule(n)
}

/// The number of hundredths of `unit` in `bytes`, rounded.
pub open spec fn hundredths(bytes: nat, unit: nat) -> nat {
    div_half_even(nearest_53(bytes) * 100, unit)
}

/// A count of hundredths written with two decimal places.
pub open spec fn two_places(h: nat) -> Seq<char> {
    decimal(h / 100) + seq!['.', digit((h / 10) % 10), digit(h % 10)]
}

/// The text for a byte count: whole bytes below 1024, else two decimal
/// places of the largest unit that fits.
pub open spec fn size_text(bytes: u64) -> Seq<char> {
    if bytes >= GB {
        two_places(hundredths(bytes as nat, GB as nat)) + seq![' ', 'G', 'B']
    } else if bytes >= MB {
        two_places(hundredths(bytes as nat, MB as nat)) + seq![' ', 'M', 'B']
    } else if bytes >= KB {
        two_places(hundredths(bytes as nat, KB as nat)) + seq![' ', 'K', 'B']
    } else {
        decimal(bytes as nat) + seq![' ', 'B']
    }
}

/// The character for a decimal digit.
fn digit_char(d: u8) -> (c: char)
    requires
        d < 10,
    ensures
        c == digit(d as nat),
{
    match d {
        0 => '0',
        1 => '1',
        2 => '2',
        3 => '3',
        4 => '4',
        5 => '5',
        6 => '6',
        7 => '7',
        8 => '8',
        _ => '9',
    }
}

/// Appends `n` in decimal to `out`.
pub fn push_decimal(out: &mut String, n: u128)
    ensures
        final(out)@ == old(out)@ + decimal(n as nat),
{
    let mut digits: Vec<char> = Vec::new();
    let mut rest: u128 = n;
    // Least significant digit first; `tail` is what they spell in reading order.
    let ghost mut tail: Seq<char> = Seq::empty();
    while rest >= 10
        invariant
            tail.len() == digits@.len(),
            forall|k: int| 0 <= k < tail.len() ==> tail[k] == #[trigger] digits@[tail.len() - 1 - k],
            decimal(n as nat) == decimal(rest as nat) + tail,
        decreases rest,
    {
        let d: u8 = (rest % 10) as u8;
        let c = digit_char(d);
        proof {
            let longer = seq![c] + tail;
            assert(decimal(rest as nat) == decimal((rest / 10) as nat).push(c));
            assert(decimal((rest / 10) as nat).push(c) + tail =~= decimal((rest / 10) as nat) + longer);
            assert forall|k: int| 0 <= k < longer.len() implies longer[k] == #[trigger] digits@.push(
                c,
            )[longer.len() - 1 - k] by {
                if k > 0 {
                    assert(longer[k] == tail[k - 1]);
                    assert(tail[k - 1] == digits@[tail.len() - 1 - (k - 1)]);
                }
            }
            tail = longer;
        }
        digits.push(c);
        rest = rest / 10;
    }
    let first = digit_char(rest as u8);
    push_char(out, first);
    assert(decimal(rest as nat) =~= seq![first]);
    let mut i: usize = digits.len();
    while i > 0
        invariant
            i <= digits@.len(),
            tail.len() == digits@.len(),
            forall|k: int| 0 <= k < tail.len() ==> tail[k] == #[trigger] digits@[tail.len() - 1 - k],
            out@ == old(out)@ + seq![first] + tail.take(digits@.len() - i),
        decreases i,
    {
        i -= 1;
        proof {
            let done = digits@.len() - 1 - i;
            assert(tail[done] == digits@[tail.len() - 1 - done]);
            assert(tail.take(done + 1) =~= tail.take(done).push(tail[done]));
            assert((old(out)@ + seq![first] + tail.take(done)).push(tail[done]) =~= old(out)@
                + seq![first] + tail.take(done + 1));
        }
        push_char(out, digits[i]);
    }
    assert(tail.take(tail.len() as int) =~= tail);
    assert(old(out)@ + seq![first] + tail =~= old(out)@ + (seq![first] + tail));
}

/// The granule of `n`.
fn granule_of(n: u64) -> (g: u64)
    ensures
        g == granule(n as nat),
        1 <= g <= 2048,
{
    if n < 0x20_0000_0000_0000 {
        1
    } else if n < 0x40_0000_0000_0000 {
        2
    } else if n < 0x80_0000_0000_0000 {
        4
    } else if n < 0x100_0000_0000_0000 {
        8
    } else if n < 0x200_0000_0000_0000 {
        16
    } else if n < 0x400_0000_0000_0000 {
        32
    } else if n < 0x800_0000_0000_0000 {
        64
    } else if n < 0x1000_0000_0000_0000 {
        128
    } else if n < 0x2000_0000_0000_0000 {
        256
    } else if n < 0x4000_0000_0000_0000 {
        512
    } else if n < 0x8000_0000_0000_0000 {
        1024
    } else {
        2048
    }
}

/// `num / den`, rounded half-to-even.
fn rounded_quotient(num: u128, den: u128) -> (q: u128)
    requires
        den > 0,
        num < 0x1_0000_0000_0000_0000_0000_0000_0000,
    ensures
        q == div_half_even(num as nat, den as nat),
        q <= num + 1,
{
    let whole: u128 = num / den;
    let left: u128 = num % den;
    assert(whole <= num) by (nonlinear_arith)
        requires
            whole == num / den,
            den > 0,
    ;
    assert(left < den);
    if left > den - left || (left == den - left && whole % 2 == 1) {
        whole + 1
    } else {
        whole
    }
}

/// `bytes` as a human reads it: `512 B`, `1.50 KB`, `2.00 MB`, `3.25 GB`.
pub fn format_size(bytes: u64) -> (text: String)
    ensures
        text@ == size_text(bytes),
{
    let mut text = String::new();
    if bytes < KB {
        push_decimal(&mut text, bytes as u128);
        push_char(&mut text, ' ');
        push_char(&mut text, 'B');
        assert(text@ =~= size_text(bytes));
        return text;
    }
    let unit: u64 = if bytes >= GB {
        GB
    } else if bytes >= MB {
        MB
    } else {
        KB
    };
    let letter: char = if bytes >= GB {
        'G'
    } else if bytes >= MB {
        'M'
    } else {
        'K'
    };
    let g: u64 = granule_of(bytes);
    let steps: u128 = rounded_quotient(bytes as u128, g as u128);
    assert(steps * g <= 0x1_0000_0000_0000_0001 * 2048) by (nonlinear_arith)
        requires
            steps <= 0x1_0000_0000_0000_0001,
            g <= 2048,
    ;
    let held: u128 = steps * (g as u128);
    let h: u128 = rounded_quotient(held * 100, unit as u128);
    push_decimal(&mut text, h / 100);
    push_char(&mut text, '.');
    push_char(&mut text, digit_char(((h / 10) % 10) as u8));
    push_char(&mut text, digit_char((h % 10) as u8));
    push_char(&mut text, ' ');
    push_char(&mut text, letter);
    push_char(&mut text, 'B');
    assert(text@ =~= size_text(bytes));
    text
}

} // verus!
