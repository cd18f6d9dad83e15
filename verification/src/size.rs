//! Human-scaled sizes: a byte count written in the largest binary unit that
//! does not exceed it.

use crate::text::{decimal, digits_value, is_digit, lemma_decimal_round_trip, push_decimal};
use vstd::prelude::*;
use vstd::string::*;

verus! {

/// The index of the unit in which `size` is shown: bytes, then the binary
/// multiples up to tebibytes. It is the largest unit that `size` reaches.
pub open spec fn unit_index(size: nat) -> nat {
    if size < 1024 {
        0
    } else if size < 1024 * 1024 {
        1
    } else if size < 1024 * 1024 * 1024 {
        2
    } else if size < 1024 * 1024 * 1024 * 1024 {
        3
    } else {
        4
    }
}

/// The number of bytes in one unit of index `k`.
pub open spec fn unit_scale(k: nat) -> nat {
    if k == 0 {
        1
    } else if k == 1 {
        1024
    } else if k == 2 {
        1024 * 1024
    } else if k == 3 {
        1024 * 1024 * 1024
    } else {
        1024 * 1024 * 1024 * 1024
    }
}

/// The label of the unit of index `k`.
pub open spec fn unit_name(k: nat) -> Seq<char> {
    if k == 0 {
        "B"@
    } else if k == 1 {
        "KB"@
    } else if k == 2 {
        "MB"@
    } else if k == 3 {
        "GB"@
    } else {
        "TB"@
    }
}

/// `num / den` rounded to the nearest integer, a tie going to the even neighbour.
pub open spec fn round_half_even(num: nat, den: nat) -> nat {
    let q = num / den;
    let r = num % den;
    if 2 * r < den {
        q
    } else if 2 * r > den {
        q + 1
    } else if q % 2 == 0 {
        q
    } else {
        q + 1
    }
}

/// Whether `size` is shown with one decimal place: its unit is not bytes
/// and it is below ten units.
pub open spec fn shows_tenths(size: nat) -> bool {
    unit_index(size) != 0 && size < 10 * unit_scale(unit_index(size))
}

/// The amount that is shown for `size`, counted in tenths of its unit.
pub open spec fn shown_tenths(size: nat) -> nat {
    let scale = unit_scale(unit_index(size));
    if shows_tenths(size) {
        round_half_even(10 * size, scale)
    } else {
        10 * round_half_even(size, scale)
    }
}

/// The numeral shown for `size`: one decimal place where `shows_tenths` holds,
/// a whole number otherwise.
pub open spec fn amount_text(size: nat) -> Seq<char> {
    let tenths = shown_tenths(size);
    if shows_tenths(size) {
        decimal(tenths / 10) + "."@ + decimal(tenths % 10)
    } else {
        decimal(tenths / 10)
    }
}

/// The text shown for a size of `size` bytes.
pub open spec fn size_text(size: nat) -> Seq<char> {
    amount_text(size) + " "@ + unit_name(unit_index(size))
}

/// The amount, in tenths, that a numeral with at most one decimal place writes.
pub open spec fn read_tenths(text: Seq<char>) -> nat {
    if text.len() >= 2 && text[text.len() - 2] == '.' {
        digits_value(text.take(text.len() - 2)) * 10 + digits_value(text.skip(text.len() - 1))
    } else {
        digits_value(text) * 10
    }
}

/// The distance between two numbers.
pub open spec fn distance(a: int, b: int) -> int {
    if a <= b {
        b - a
    } else {
        a - b
    }
}

proof fn lemma_round_half_even_near(num: nat, den: nat)
    requires
        den > 0,
    ensures
        2 * distance((round_half_even(num, den) * den) as int, num as int) <= den,
{
    let q = num / den;
    let r = num % den;
    assert(num == q * den + r && 0 <= r < den) by (nonlinear_arith)
        requires
            den > 0,
            q == num / den,
            r == num % den,
    ;
    assert((q + 1) * den == q * den + den) by (nonlinear_arith);
}

/// The text of a size names the largest unit that the size reaches, and its
/// numeral reads back as an amount that is within half a unit of the last
/// shown place of the exact quotient.
pub proof fn lemma_size_text_reads_back(size: u64)
    ensures
        ({
            let k = unit_index(size as nat);
            let scale = unit_scale(k);
            let shown = read_tenths(amount_text(size as nat));
            &&& size_text(size as nat) == amount_text(size as nat) + " "@ + unit_name(k)
            &&& k == 0 || scale <= size
            &&& k < 4 ==> size < unit_scale(k + 1)
            &&& shown == shown_tenths(size as nat)
            &&& shows_tenths(size as nat) ==> 2 * distance((shown * scale) as int, 10 * size) <= scale
            &&& !shows_tenths(size as nat) ==> 2 * distance((shown * scale) as int, 10 * size) <= 10 * scale
        }),
{
    let n = size as nat;
    let k = unit_index(n);
    let scale = unit_scale(k);
    let tenths = shown_tenths(n);
    let text = amount_text(n);
    reveal_strlit(".");
    lemma_decimal_round_trip(tenths / 10);
    lemma_decimal_round_trip(tenths % 10);
    if shows_tenths(n) {
        let whole = decimal(tenths / 10);
        let frac = decimal(tenths % 10);
        assert(frac.len() == 1);
        assert(text.len() == whole.len() + 2);
        assert(text[text.len() - 2] == '.');
        assert(text.take(text.len() - 2) =~= whole);
        assert(text.skip(text.len() - 1) =~= frac);
        lemma_round_half_even_near(10 * n, scale);
    } else {
        assert(text == decimal(tenths / 10));
        if text.len() >= 2 {
            assert(is_digit(text[text.len() - 2]));
        }
        lemma_round_half_even_near(n, scale);
        let whole = round_half_even(n, scale);
        assert(tenths == 10 * whole);
        assert(distance((tenths * scale) as int, 10 * size) == 10 * distance((whole * scale) as int, n as int))
            by (nonlinear_arith)
            requires
                tenths == 10 * whole,
                n == size,
        ;
    }
}

fn round_half_even_of(num: u128, den: u128) -> (r: u128)
    requires
        den > 0,
        num < u128::MAX,
    ensures
        r == round_half_even(num as nat, den as nat),
{
    let q = num / den;
    let r = num % den;
    assert(q <= num) by (nonlinear_arith)
        requires
            q == num / den,
            den > 0,
    ;
    if r < den - r {
        q
    } else if r > den - r {
        q + 1
    } else if q % 2 == 0 {
        q
    } else {
        q + 1
    }
}

/// Writes `size` bytes in the largest binary unit that it reaches: with one
/// decimal place below ten units of anything but bytes, as a rounded whole
/// number otherwise.
pub fn format_size(size: u64) -> (text: String)
    ensures
        text@ == size_text(size as nat),
{
    let mut out = String::new();
    let (k, scale): (u8, u64) = if size < 1024 {
        (0, 1)
    } else if size < 1024 * 1024 {
        (1, 1024)
    } else if size < 1024 * 1024 * 1024 {
        (2, 1024 * 1024)
    } else if size < 1024 * 1024 * 1024 * 1024 {
        (3, 1024 * 1024 * 1024)
    } else {
        (4, 1024 * 1024 * 1024 * 1024)
    };
    assert(k == unit_index(size as nat) && scale == unit_scale(k as nat));
    if k != 0 && size < 10 * scale {
        let tenths = round_half_even_of(size as u128 * 10, scale as u128);
        assert(tenths <= 100) by {
            lemma_round_half_even_near(10 * size as nat, scale as nat);
            assert(tenths * scale <= 100 * scale + scale) by (nonlinear_arith)
                requires
                    2 * distance((tenths * scale) as int, 10 * size) <= scale,
                    size < 10 * scale,
            ;
            assert(tenths <= 101) by (nonlinear_arith)
                requires
                    tenths * scale <= 100 * scale + scale,
                    scale > 0,
            ;
            assert(tenths != 101) by (nonlinear_arith)
                requires
                    2 * distance((tenths * scale) as int, 10 * size) <= scale,
                    size < 10 * scale,
                    scale > 1,
            ;
        }
        let tenths: u64 = tenths as u64;
        push_decimal(&mut out, tenths / 10);
        out.append(".");
        push_decimal(&mut out, tenths % 10);
        assert(out@ =~= amount_text(size as nat));
    } else {
        let whole = round_half_even_of(size as u128, scale as u128);
        assert(whole <= size + 1) by {
            assert(size as u128 / scale as u128 <= size) by (nonlinear_arith)
                requires
                    scale > 0,
            ;
        }
        assert(whole <= u64::MAX) by {
            if whole == size + 1 {
                assert(scale == 1);
            }
        }
        let whole: u64 = whole as u64;
        push_decimal(&mut out, whole);
        assert((10 * whole as nat) / 10 == whole);
        assert(out@ =~= amount_text(size as nat));
    }
    out.append(" ");
    let name = if k == 0 {
        "B"
    } else if k == 1 {
        "KB"
    } else if k == 2 {
        "MB"
    } else if k == 3 {
        "GB"
    } else {
        "TB"
    };
    out.append(name);
    out
}

} // verus!
