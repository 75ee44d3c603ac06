//! Win-rates as exact fixed-point numbers, and the texts that show them.

use vstd::prelude::*;
use vstd::string::*;
use crate::decimal::{decimal_text, digit_char, digit_to_char, push_decimal};

verus! {

/// The number of decimal places that a win-rate keeps.
pub const WINRATE_PLACES: u32 = 18;

/// The number of units in a win-rate of one: ten to the power of
/// `WINRATE_PLACES`.
pub const WINRATE_ONE: u64 = 1_000_000_000_000_000_000;

/// The number of units in one hundredth: a percentage point.
pub const WINRATE_PERCENT: u64 = 10_000_000_000_000_000;

/// A win probability, held as a whole number of units of 10^-18.
#[derive(Clone, Copy, Debug, PartialEq, Eq, Structural)]
pub struct Winrate {
    pub units: u64,
}

/// Ten to the power of `n`.
pub open spec fn pow10(n: nat) -> nat
    decreases n,
{
    if n == 0 {
        1
    } else {
        10 * pow10((n - 1) as nat)
    }
}

/// The digits that write `part / 10^places` after the decimal point, without
/// the zeros at the end.
pub open spec fn fraction_digits(part: nat, places: nat) -> Seq<char>
    recommends
        part < pow10(places),
    decreases places,
{
    if part == 0 || places == 0 {
        Seq::empty()
    } else {
        seq![digit_char(part / pow10((places - 1) as nat))] + fraction_digits(
            part % pow10((places - 1) as nat),
            (places - 1) as nat,
        )
    }
}

/// The number `value / 10^places` written in full: the whole part, then, if
/// anything is left, a point and the digits after it up to the last one
/// that is not zero.
pub open spec fn fixed_text(value: nat, places: nat) -> Seq<char> {
    let whole = value / pow10(places);
    let part = value % pow10(places);
    if part == 0 {
        decimal_text(whole)
    } else {
        decimal_text(whole) + seq!['.'] + fraction_digits(part, places)
    }
}

/// A text of fewer than two characters, moved to the right in a field of
/// two; any other text as it is.
pub open spec fn right_aligned(text: Seq<char>) -> Seq<char> {
    if text.len() == 0 {
        seq![' ', ' ']
    } else if text.len() == 1 {
        seq![' '] + text
    } else {
        text
    }
}

impl Winrate {
    /// Whether the value is a probability: at most one.
    pub open spec fn valid(&self) -> bool {
        self.units <= WINRATE_ONE
    }

    /// The distance between two win-rates, in units.
    pub open spec fn gap(self, other: Winrate) -> nat {
        if self.units >= other.units {
            (self.units - other.units) as nat
        } else {
            (other.units - self.units) as nat
        }
    }

    /// Whether two win-rates lie further apart than `threshold`.
    pub open spec fn swings(self, other: Winrate, threshold: Winrate) -> bool {
        self.gap(other) > threshold.units
    }

    /// The win-rate as the number it is, such as `0.4375`.
    pub open spec fn text(self) -> Seq<char> {
        fixed_text(self.units as nat, WINRATE_PLACES as nat)
    }

    /// The win-rate in percent, in a field of two characters, such as
    /// `43.75` or ` 5`.
    pub open spec fn percent_text(self) -> Seq<char> {
        right_aligned(fixed_text(self.units as nat, (WINRATE_PLACES - 2) as nat))
    }

    /// Tests `swings`.
    pub fn is_swing(self, other: Winrate, threshold: Winrate) -> (res: bool)
        ensures
            res == self.swings(other, threshold),
    {
        let gap = if self.units >= other.units {
            self.units - other.units
        } else {
            other.units - self.units
        };
        gap > threshold.units
    }

    /// Writes `text`.
    pub fn to_text(self) -> (res: String)
        ensures
            res@ == self.text(),
    {
        proof {
            lemma_pow10_values();
        }
        let mut out = String::new();
        push_fixed(&mut out, self.units, WINRATE_ONE, Ghost(WINRATE_PLACES as nat));
        out
    }

    /// Writes `percent_text`.
    pub fn to_percent_text(self) -> (res: String)
        ensures
            res@ == self.percent_text(),
    {
        proof {
            lemma_pow10_values();
        }
        let mut number = String::new();
        push_fixed(&mut number, self.units, WINRATE_PERCENT, Ghost((WINRATE_PLACES - 2) as nat));
        let len = number.as_str().unicode_len();
        if len >= 2 {
            number
        } else {
            let mut out = String::new();
            out.push(' ');
            if len == 0 {
                out.push(' ');
            }
            out.append(number.as_str());
            proof {
                assert(out@ =~= right_aligned(number@));
            }
            out
        }
    }
}

/// The powers of ten that the win-rate's units are made of.
pub proof fn lemma_pow10_values()
    ensures
        pow10(0) == 1,
        pow10(1) == 10,
        pow10(2) == 100,
        pow10(16) == WINRATE_PERCENT,
        pow10(18) == WINRATE_ONE,
{
    reveal_with_fuel(pow10, 20);
}

/// Appends the digits after the point of `part / unit`.
fn push_fraction(out: &mut String, part: u64, unit: u64, Ghost(places): Ghost<nat>)
    requires
        unit == pow10(places),
        part < unit,
    ensures
        final(out)@ == old(out)@ + fraction_digits(part as nat, places),
    decreases places,
{
    if part == 0 {
        assert(old(out)@ + fraction_digits(part as nat, places) =~= old(out)@);
        return ;
    }
    let step = unit / 10;
    assert(places > 0);
    assert(step == pow10((places - 1) as nat));
    assert(part / step < 10) by (nonlinear_arith)
        requires
            part < unit,
            unit == 10 * step,
            step > 0,
    ;
    assert(part % step < step) by (nonlinear_arith)
        requires
            step > 0,
    ;
    out.push(digit_to_char((part / step) as u8));
    push_fraction(out, part % step, step, Ghost((places - 1) as nat));
    assert(final(out)@ =~= old(out)@ + fraction_digits(part as nat, places));
}

/// Appends `value / unit`, written in full.
fn push_fixed(out: &mut String, value: u64, unit: u64, Ghost(places): Ghost<nat>)
    requires
        unit == pow10(places),
    ensures
        final(out)@ == old(out)@ + fixed_text(value as nat, places),
{
    assert(unit > 0) by {
        lemma_pow10_positive(places);
    }
    let whole = value / unit;
    let part = value % unit;
    push_decimal(out, whole);
    if part != 0 {
        out.push('.');
        push_fraction(out, part, unit, Ghost(places));
    }
    assert(final(out)@ =~= old(out)@ + fixed_text(value as nat, places));
}

/// No power of ten is zero.
pub proof fn lemma_pow10_positive(n: nat)
    ensures
        pow10(n) > 0,
    decreases n,
{
    if n > 0 {
        lemma_pow10_positive((n - 1) as nat);
    }
}

} // verus!
