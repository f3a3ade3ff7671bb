//! Byte counts for human readers: a number and a binary unit.

use vstd::prelude::*;
use vstd::string::StringExecFns;
use crate::text::{decimal, digit_char, push_decimal};

verus! {

/// The units a size is shown in, each 1024 times the one before.
#[derive(Clone, Copy, Debug, PartialEq, Eq, Structural)]
pub enum Unit {
    /// Bytes.
    B,
    /// 1024 bytes.
    KB,
    /// 1024 KB.
    MB,
    /// 1024 MB.
    GB,
    /// 1024 GB; there is no larger unit.
    TB,
}

impl Unit {
    /// How many bytes make one of this unit.
    pub open spec fn factor(self) -> nat {
        match self {
            Unit::B => 1,
            Unit::KB => 0x400,
            Unit::MB => 0x10_0000,
            Unit::GB => 0x4000_0000,
            Unit::TB => 0x100_0000_0000,
        }
    }

    /// The unit's name as it is printed.
    pub open spec fn label(self) -> Seq<char> {
        match self {
            Unit::B => seq!['B'],
            Unit::KB => seq!['K', 'B'],
            Unit::MB => seq!['M', 'B'],
            Unit::GB => seq!['G', 'B'],
            Unit::TB => seq!['T', 'B'],
        }
    }
}

/// The largest unit that `bytes` holds at least one of. The exact count
/// decides, never the rounded number that is shown with it.
pub open spec fn unit_of(bytes: nat) -> Unit {
    if bytes < Unit::KB.factor() {
        Unit::B
    } else if bytes < Unit::MB.factor() {
        Unit::KB
    } else if bytes < Unit::GB.factor() {
        Unit::MB
    } else if bytes < Unit::TB.factor() {
        Unit::GB
    } else {
        Unit::TB
    }
}

/// `num / den` rounded to the nearest whole number, a tie going to the even
/// neighbour.
pub open spec fn round_half_even(num: nat, den: nat) -> nat
    recommends
        den > 0,
{
    let q = num / den;
    let r = num % den;
    if 2 * r > den || (2 * r == den && q % 2 == 1) {
        q + 1
    } else {
        q
    }
}

/// The distance between neighbouring numbers that 53 significant bits can
/// tell apart at the magnitude of `n`, for `n` below 2^64.
pub open spec fn grain(n: nat) -> nat {
    if n < 0x20_0000_0000_0000 {
        1
    } else if n < 0x40_0000_0000_0000 {
        2
    } else if n < 0x80_0000_0000_0000 {
        4
    } else if n < 0x100_0000_0000_0000 {
        8
    } else if n < 0x200_0000_0000_0000 {
        16
    } else if n < 0x400_0000_0000_0000 {
        32
    } else if n < 0x800_0000_0000_0000 {
        64
    } else if n < 0x1000_0000_0000_0000 {
        128
    } else if n < 0x2000_0000_0000_0000 {
        256
    } else if n < 0x4000_0000_0000_0000 {
        512
    } else if n < 0x8000_0000_0000_0000 {
        1024
    } else {
        2048
    }
}

/// `n` kept to 53 significant bits, as double-precision arithmetic holds it:
/// the nearest multiple of its grain, a tie going to the even multiple.
/// Counts below 2^53 are kept exactly.
pub open spec fn kept(n: nat) -> nat {
    round_half_even(n, grain(n)) * grain(n)
}

/// The number shown for a count of 1024 bytes or more, in hundredths of its
/// unit.
pub open spec fn hundredths(bytes: nat) -> nat {
    round_half_even(kept(bytes) * 100, unit_of(bytes).factor())
}

/// A byte count as it is shown. Below 1024 the count itself, then ` B`.
/// From 1024 on the count in its unit with exactly two decimal places, then
/// a space and the unit.
pub open spec fn human_size_text(bytes: nat) -> Seq<char> {
    if bytes < 1024 {
        decimal(bytes) + seq![' ', 'B']
    } else {
        let h = hundredths(bytes);
        decimal(h / 100) + seq!['.', digit_char(h % 100 / 10), digit_char(h % 10), ' ']
            + unit_of(bytes).label()
    }
}

/// A count is shown in the unit that it reaches exactly: at least one of
/// that unit, less than one of the next, and the text ends in that unit's
/// name. Rounding the number never moves a count into the next unit, so a
/// count just below a unit's size is shown in the unit below, even where
/// its number rounds to 1024.00.
pub proof fn lemma_unit_is_exact(bytes: nat)
    ensures
        bytes > 0 ==> unit_of(bytes).factor() <= bytes,
        unit_of(bytes) != Unit::TB ==> bytes < 1024 * unit_of(bytes).factor(),
        human_size_text(bytes).len() >= unit_of(bytes).label().len(),
        human_size_text(bytes).skip(
            human_size_text(bytes).len() - unit_of(bytes).label().len(),
        ) == unit_of(bytes).label(),
{
    let text = human_size_text(bytes);
    let label = unit_of(bytes).label();
    assert(text.skip(text.len() - label.len()) =~= label);
}

/// The unit in which `bytes` is shown.
pub fn unit_for(bytes: u64) -> (unit: Unit)
    ensures
        unit == unit_of(bytes as nat),
{
    if bytes < 0x400 {
        Unit::B
    } else if bytes < 0x10_0000 {
        Unit::KB
    } else if bytes < 0x4000_0000 {
        Unit::MB
    } else if bytes < 0x100_0000_0000 {
        Unit::GB
    } else {
        Unit::TB
    }
}

fn factor_of(unit: Unit) -> (factor: u128)
    ensures
        factor == unit.factor(),
{
    match unit {
        Unit::B => 1,
        Unit::KB => 0x400,
        Unit::MB => 0x10_0000,
        Unit::GB => 0x4000_0000,
        Unit::TB => 0x100_0000_0000,
    }
}

fn label_of(unit: Unit) -> (label: &'static str)
    ensures
        label@ == unit.label(),
{
    proof {
        reveal_strlit("B");
        reveal_strlit("KB");
        reveal_strlit("MB");
        reveal_strlit("GB");
        reveal_strlit("TB");
    }
    let label = match unit {
        Unit::B => "B",
        Unit::KB => "KB",
        Unit::MB => "MB",
        Unit::GB => "GB",
        Unit::TB => "TB",
    };
    assert(label@ =~= unit.label());
    label
}

fn grain_of(n: u64) -> (g: u128)
    ensures
        g == grain(n as nat),
        1 <= g <= 2048,
        n < 0x20_0000_0000_0000 * g,
{
    if n < 0x20_0000_0000_0000 {
        1
    } else if n < 0x40_0000_0000_0000 {
        2
    } else if n < 0x80_0000_0000_0000 {
        4
    } else if n < 0x100_0000_0000_0000 {
        8
    } else if n < 0x200_0000_0000_0000 {
        16
    } else if n < 0x400_0000_0000_0000 {
        32
    } else if n < 0x800_0000_0000_0000 {
        64
    } else if n < 0x1000_0000_0000_0000 {
        128
    } else if n < 0x2000_0000_0000_0000 {
        256
    } else if n < 0x4000_0000_0000_0000 {
        512
    } else if n < 0x8000_0000_0000_0000 {
        1024
    } else {
        2048
    }
}

fn rounded_ratio(num: u128, den: u128) -> (q: u128)
    requires
        0 < den,
        num < 0x1_0000_0000_0000_0000_0000,
    ensures
        q == round_half_even(num as nat, den as nat),
        q <= num / den + 1,
{
    let q = num / den;
    let r = num % den;
    if r > den - r || (r == den - r && q % 2 == 1) {
        q + 1
    } else {
        q
    }
}

/// Renders a byte count for display.
pub fn human_size(bytes: u64) -> (text: String)
    ensures
        text@ == human_size_text(bytes as nat),
{
    let mut text = String::new();
    if bytes < 1024 {
        push_decimal(&mut text, bytes);
        proof {
            reveal_strlit(" B");
        }
        text.append(" B");
        assert(text@ =~= human_size_text(bytes as nat));
        return text;
    }
    let unit = unit_for(bytes);
    let grain = grain_of(bytes);
    let wide: u128 = bytes as u128;
    let multiples = rounded_ratio(wide, grain);
    assert(multiples * grain <= 0x1_0000_0000_0000_0000) by (nonlinear_arith)
        requires
            multiples <= wide / grain + 1,
            1 <= grain <= 2048,
            wide < 0x20_0000_0000_0000 * grain,
    {
        assert(wide / grain < 0x20_0000_0000_0000);
        assert(multiples * grain <= 0x20_0000_0000_0000 * grain);
    }
    let held: u128 = multiples * grain;
    let factor = factor_of(unit);
    let h = rounded_ratio(held * 100, factor);
    assert(h < 0x1_0000_0000_0000_0000) by {
        let scaled: int = held * 100;
        vstd::arithmetic::div_mod::lemma_div_is_ordered_by_denominator(
            scaled,
            0x400,
            factor as int,
        );
        assert(scaled / 0x400 <= 0x1900_0000_0000_0000);
    }
    let whole: u64 = (h / 100) as u64;
    let tenths: u64 = (h % 100 / 10) as u64;
    let last: u64 = (h % 10) as u64;
    push_decimal(&mut text, whole);
    proof {
        reveal_strlit(".");
        reveal_strlit(" ");
    }
    text.append(".");
    push_decimal(&mut text, tenths);
    push_decimal(&mut text, last);
    text.append(" ");
    text.append(label_of(unit));
    assert(text@ =~= human_size_text(bytes as nat));
    text
}

} // verus!
