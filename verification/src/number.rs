//! The numbers of a JSON document, read from the text that writes them.

use vstd::prelude::*;
use vstd::arithmetic::div_mod::{lemma_basic_div, lemma_div_denominator};
use crate::decimal::{all_digits, digit_value, digits_value, is_digit};
use crate::text::chars_of;
use crate::winrate::{lemma_pow10_positive, pow10, Winrate, WINRATE_ONE, WINRATE_PLACES};

verus! {

/// Where the run of digits that starts at `from` ends.
pub open spec fn digit_run(s: Seq<char>, from: int) -> int
    decreases s.len() - from,
{
    if 0 <= from < s.len() && is_digit(s[from]) {
        digit_run(s, from + 1)
    } else {
        from
    }
}

/// The count that a text writes: one or more digits, and no more than a
/// `usize` holds.
pub open spec fn text_count(s: Seq<char>) -> Option<usize> {
    if s.len() > 0 && all_digits(s) && digits_value(s) <= usize::MAX {
        Some(digits_value(s) as usize)
    } else {
        None
    }
}

/// The parts of a number without a sign: the digits before the point, the
/// digits after it, and the power of ten that the number is to be
/// multiplied by.
pub ghost struct NumberParts {
    pub whole: Seq<char>,
    pub fraction: Seq<char>,
    pub exponent: int,
}

/// The parts of the number that a text writes: digits, then perhaps a point
/// and more digits, then perhaps `e` or `E`, perhaps a sign, and the digits
/// of the exponent.  There is at least one digit in each place, and nothing
/// else in the text.
pub open spec fn number_parts(s: Seq<char>) -> Option<NumberParts> {
    let a = digit_run(s, 0);
    let has_point = a < s.len() && s[a] == '.';
    let b = if has_point {
        digit_run(s, a + 1)
    } else {
        a
    };
    let has_exponent = b < s.len() && (s[b] == 'e' || s[b] == 'E');
    let signed = has_exponent && b + 1 < s.len() && (s[b + 1] == '+' || s[b + 1] == '-');
    let c = if signed {
        b + 2
    } else {
        b + 1
    };
    let d = if has_exponent {
        digit_run(s, c)
    } else {
        b
    };
    if a == 0 || (has_point && b == a + 1) || (has_exponent && d == c) || d != s.len() {
        None
    } else {
        Some(
            NumberParts {
                whole: s.subrange(0, a),
                fraction: if has_point {
                    s.subrange(a + 1, b)
                } else {
                    Seq::empty()
                },
                exponent: if !has_exponent {
                    0
                } else if signed && s[b + 1] == '-' {
                    -(digits_value(s.subrange(c, d)) as int)
                } else {
                    digits_value(s.subrange(c, d)) as int
                },
            },
        )
    }
}

/// The first `count` of the given digits; where there are fewer, zeros
/// make up the count.
pub open spec fn leading_digits(digits: Seq<char>, count: int) -> Seq<char> {
    Seq::new(
        if count > 0 {
            count as nat
        } else {
            0
        },
        |j: int|
            if j < digits.len() {
                digits[j]
            } else {
                '0'
            },
    )
}

/// The number in units of `10^-places`, rounded down: its digits with the
/// point moved to the right by `places` and by the exponent, and without
/// what then still follows the point.
pub open spec fn number_units(parts: NumberParts, places: nat) -> nat {
    digits_value(
        leading_digits(
            parts.whole + parts.fraction,
            parts.whole.len() + places + parts.exponent,
        ),
    )
}

/// The win-rate that a text writes: a number from zero to one, kept to 18
/// decimal places.
pub open spec fn text_winrate(s: Seq<char>) -> Option<Winrate> {
    match number_parts(s) {
        Some(parts) => if number_units(parts, WINRATE_PLACES as nat) <= WINRATE_ONE {
            Some(Winrate { units: number_units(parts, WINRATE_PLACES as nat) as u64 })
        } else {
            None
        },
        None => None,
    }
}

/// A sequence of digits writes at least what any of its beginnings writes.
pub proof fn lemma_digits_value_prefix(s: Seq<char>, j: int)
    requires
        0 <= j <= s.len(),
    ensures
        digits_value(s.take(j)) <= digits_value(s),
    decreases s.len(),
{
    if j == s.len() {
        assert(s.take(j) =~= s);
    } else {
        lemma_digits_value_prefix(s.drop_last(), j);
        assert(s.drop_last().take(j) =~= s.take(j));
    }
}

/// Zeros at the end multiply what the digits write by a power of ten.
pub proof fn lemma_digits_value_zeros(s: Seq<char>, k: nat)
    ensures
        digits_value(s + Seq::new(k, |j: int| '0')) == digits_value(s) * pow10(k),
    decreases k,
{
    let padded = s + Seq::new(k, |j: int| '0');
    if k == 0 {
        assert(padded =~= s);
        assert(pow10(0) == 1);
        assert(digits_value(s) * 1 == digits_value(s));
    } else {
        let shorter = s + Seq::new((k - 1) as nat, |j: int| '0');
        lemma_digits_value_zeros(s, (k - 1) as nat);
        assert(padded.drop_last() =~= shorter);
        assert(padded.last() == '0');
        assert(digit_value('0') == 0);
        assert(digits_value(padded) == digits_value(padded.drop_last()) * 10 + digit_value(
            padded.last(),
        ));
        assert(digits_value(padded) == digits_value(shorter) * 10);
        assert(pow10(k) == 10 * pow10((k - 1) as nat));
        assert(digits_value(s) * pow10((k - 1) as nat) * 10 == digits_value(s) * pow10(k))
            by (nonlinear_arith)
            requires
                pow10(k) == 10 * pow10((k - 1) as nat),
        ;
    }
}

/// A greater power of ten is not less.
pub proof fn lemma_pow10_grows(a: nat, b: nat)
    requires
        a <= b,
    ensures
        pow10(a) <= pow10(b),
    decreases b - a,
{
    if a < b {
        lemma_pow10_grows(a, (b - 1) as nat);
    }
}

/// Digits write less than the power of ten of their count.
pub proof fn lemma_digits_value_bound(s: Seq<char>)
    requires
        all_digits(s),
    ensures
        digits_value(s) < pow10(s.len()),
    decreases s.len(),
{
    if s.len() > 0 {
        let shorter = s.drop_last();
        assert(all_digits(shorter)) by {
            assert forall|j: int| 0 <= j < shorter.len() implies is_digit(#[trigger] shorter[j]) by {
                assert(shorter[j] == s[j]);
            }
        }
        lemma_digits_value_bound(shorter);
        assert(is_digit(s.last()));
        assert(pow10(s.len()) == 10 * pow10(shorter.len()));
    }
}

/// Without its last `k` digits, a sequence of digits writes the quotient
/// by ten to the power of `k` of what it wrote with them.
pub proof fn lemma_digits_value_take(s: Seq<char>, k: nat)
    requires
        all_digits(s),
        k <= s.len(),
    ensures
        digits_value(s.take(s.len() - k)) == digits_value(s) / pow10(k),
    decreases k,
{
    if k == 0 {
        assert(s.take(s.len() as int) =~= s);
        assert(pow10(0) == 1);
    } else {
        let shorter = s.drop_last();
        let rest = (k - 1) as nat;
        assert(all_digits(shorter)) by {
            assert forall|j: int| 0 <= j < shorter.len() implies is_digit(#[trigger] shorter[j]) by {
                assert(shorter[j] == s[j]);
            }
        }
        lemma_digits_value_take(shorter, rest);
        assert(shorter.take(shorter.len() - rest) =~= s.take(s.len() - k));
        assert(is_digit(s.last()));
        assert(digits_value(s) == digits_value(shorter) * 10 + digit_value(s.last()));
        assert(digits_value(s) / 10 == digits_value(shorter));
        lemma_pow10_positive(rest);
        lemma_div_denominator(digits_value(s) as int, 10, pow10(rest) as int);
        assert(pow10(k) == 10 * pow10(rest));
    }
}

/// The units of a number are the number times ten to the power of
/// `places`, rounded down: what its digits write, times the power of ten
/// that is left when the places, the exponent and the digits after the
/// point are set against each other, or divided by it.
pub proof fn lemma_number_units(parts: NumberParts, places: nat)
    requires
        all_digits(parts.whole),
        all_digits(parts.fraction),
    ensures
        ({
            let mantissa = digits_value(parts.whole + parts.fraction);
            let shift = places + parts.exponent - parts.fraction.len();
            number_units(parts, places) == if shift >= 0 {
                mantissa * pow10(shift as nat)
            } else {
                mantissa / pow10((-shift) as nat)
            }
        }),
{
    let digits = parts.whole + parts.fraction;
    let shift = places + parts.exponent - parts.fraction.len();
    let count = parts.whole.len() + places + parts.exponent;
    let lead = leading_digits(digits, count);
    assert(count == digits.len() + shift);
    assert(all_digits(digits)) by {
        assert forall|j: int| 0 <= j < digits.len() implies is_digit(#[trigger] digits[j]) by {
            if j < parts.whole.len() {
                assert(digits[j] == parts.whole[j]);
            } else {
                assert(digits[j] == parts.fraction[j - parts.whole.len()]);
            }
        }
    }
    if shift >= 0 {
        assert(lead =~= digits + Seq::new(shift as nat, |j: int| '0'));
        lemma_digits_value_zeros(digits, shift as nat);
    } else {
        let k = (-shift) as nat;
        lemma_pow10_positive(k);
        if k <= digits.len() {
            assert(lead =~= digits.take(digits.len() - k));
            lemma_digits_value_take(digits, k);
        } else {
            assert(lead =~= Seq::<char>::empty());
            lemma_digits_value_bound(digits);
            lemma_pow10_grows(digits.len(), k);
            lemma_basic_div(digits_value(digits) as int, pow10(k) as int);
        }
    }
}

/// A run of digits ends within the text, holds digits only, and ends at
/// the end of the text or before a character that is no digit.
pub proof fn lemma_digit_run(s: Seq<char>, from: int)
    requires
        0 <= from <= s.len(),
    ensures
        from <= digit_run(s, from) <= s.len(),
        all_digits(s.subrange(from, digit_run(s, from))),
        digit_run(s, from) < s.len() ==> !is_digit(s[digit_run(s, from)]),
    decreases s.len() - from,
{
    if from < s.len() && is_digit(s[from]) {
        lemma_digit_run(s, from + 1);
        let end = digit_run(s, from);
        let run = s.subrange(from, end);
        assert forall|j: int| 0 <= j < run.len() implies is_digit(#[trigger] run[j]) by {
            if j > 0 {
                assert(run[j] == s.subrange(from + 1, end)[j - 1]);
            }
        }
    }
}

/// The parts of a number hold digits only, and at least one before the
/// point.
pub proof fn lemma_number_parts_digits(s: Seq<char>)
    ensures
        number_parts(s) matches Some(parts) ==> parts.whole.len() > 0 && all_digits(parts.whole)
            && all_digits(parts.fraction),
{
    let a = digit_run(s, 0);
    lemma_digit_run(s, 0);
    if a < s.len() && s[a] == '.' {
        lemma_digit_run(s, a + 1);
    }
}

/// Finds the end of the run of digits that starts at `from`.
fn scan_digits(chars: &Vec<char>, from: usize) -> (end: usize)
    requires
        from <= chars@.len(),
    ensures
        end == digit_run(chars@, from as int),
        from <= end <= chars@.len(),
        all_digits(chars@.subrange(from as int, end as int)),
        end < chars@.len() ==> !is_digit(chars@[end as int]),
{
    let mut i = from;
    while i < chars.len()
        invariant
            from <= i <= chars@.len(),
            digit_run(chars@, from as int) == digit_run(chars@, i as int),
            all_digits(chars@.subrange(from as int, i as int)),
        decreases chars@.len() - i,
    {
        let c = chars[i];
        if !(c >= '0' && c <= '9') {
            return i;
        }
        assert(all_digits(chars@.subrange(from as int, i + 1))) by {
            let next = chars@.subrange(from as int, i + 1);
            assert forall|j: int| 0 <= j < next.len() implies is_digit(#[trigger] next[j]) by {
                if j < i - from {
                    assert(next[j] == chars@.subrange(from as int, i as int)[j]);
                }
            }
        }
        i = i + 1;
    }
    i
}

/// Reads a count.
pub fn parse_count(text: &str) -> (res: Option<usize>)
    ensures
        res == text_count(text@),
{
    let chars = chars_of(text);
    let n = chars.len();
    let end = scan_digits(&chars, 0);
    if n == 0 || end != n {
        proof {
            if n > 0 {
                assert(!is_digit(chars@[end as int]));
            }
        }
        return None;
    }
    assert(chars@.subrange(0, n as int) =~= chars@);
    let mut value: usize = 0;
    let mut i: usize = 0;
    while i < n
        invariant
            i <= n,
            n == chars@.len(),
            chars@ == text@,
            all_digits(chars@),
            value == digits_value(chars@.take(i as int)),
        decreases n - i,
    {
        let d = ((chars[i] as u8) - 48u8) as usize;
        proof {
            assert(chars@.take(i + 1).drop_last() =~= chars@.take(i as int));
            assert(chars@.take(i + 1).last() == chars@[i as int]);
            lemma_digits_value_prefix(chars@, i + 1);
        }
        if value > (usize::MAX - d) / 10 {
            return None;
        }
        value = value * 10 + d;
        i = i + 1;
    }
    assert(chars@.take(n as int) =~= chars@);
    Some(value)
}

/// The greatest exponent that is told apart from a greater one.
pub const EXPONENT_CAP: u128 = 1_000_000_000_000_000_000_000_000_000_000;

/// Reads the digits from `from` to `to` as a number, up to `EXPONENT_CAP`.
fn read_capped(chars: &Vec<char>, from: usize, to: usize) -> (res: u128)
    requires
        from <= to <= chars@.len(),
        all_digits(chars@.subrange(from as int, to as int)),
    ensures
        res == if digits_value(chars@.subrange(from as int, to as int)) <= EXPONENT_CAP {
            digits_value(chars@.subrange(from as int, to as int))
        } else {
            EXPONENT_CAP as nat
        },
{
    let ghost digits = chars@.subrange(from as int, to as int);
    let mut value: u128 = 0;
    let mut i = from;
    while i < to
        invariant
            from <= i <= to <= chars@.len(),
            digits == chars@.subrange(from as int, to as int),
            all_digits(digits),
            value <= EXPONENT_CAP,
            value == if digits_value(digits.take(i - from)) <= EXPONENT_CAP {
                digits_value(digits.take(i - from))
            } else {
                EXPONENT_CAP as nat
            },
        decreases to - i,
    {
        let c = chars[i];
        proof {
            assert(digits[i - from] == c);
            assert(is_digit(c));
            assert(digits.take(i - from + 1).drop_last() =~= digits.take(i - from));
            assert(digits.take(i - from + 1).last() == c);
        }
        let d = ((c as u8) - 48u8) as u128;
        value = value * 10 + d;
        if value > EXPONENT_CAP {
            value = EXPONENT_CAP;
        }
        i = i + 1;
    }
    assert(digits.take(to - from) =~= digits);
    value
}

/// Where digit `j` of a number stands in its text: the digits before the
/// point, which end at `a`, stand at their own places, those after it one
/// further.
pub open spec fn digit_place(a: int, j: int) -> int {
    if j < a {
        j
    } else {
        j + 1
    }
}

/// Whether the first `kept` of the digits `lead` stand in the text, each at
/// its place.
pub open spec fn digits_placed(text: Seq<char>, a: int, kept: int, lead: Seq<char>) -> bool {
    forall|j: int|
        0 <= j < kept ==> 0 <= digit_place(a, j) < text.len() && #[trigger] lead[j] == text[digit_place(
            a,
            j,
        )]
}

/// Reads the first `kept` digits of `lead` from the text.  Gives up where
/// they write more than one.
fn read_leading(chars: &Vec<char>, a: usize, kept: usize, Ghost(lead): Ghost<Seq<char>>) -> (res:
    Option<u64>)
    requires
        kept <= lead.len(),
        all_digits(lead),
        digits_placed(chars@, a as int, kept as int, lead),
    ensures
        match res {
            Some(units) => units <= WINRATE_ONE && units == digits_value(lead.take(kept as int)),
            None => digits_value(lead) > WINRATE_ONE,
        },
{
    let mut units: u64 = 0;
    let mut j: usize = 0;
    assert(lead.take(0) =~= Seq::<char>::empty());
    while j < kept
        invariant
            j <= kept <= lead.len(),
            all_digits(lead),
            digits_placed(chars@, a as int, kept as int, lead),
            units <= WINRATE_ONE,
            units == digits_value(lead.take(j as int)),
        decreases kept - j,
    {
        let ghost next = lead.take(j + 1);
        proof {
            assert(lead[j as int] == chars@[digit_place(a as int, j as int)]);
            assert(is_digit(lead[j as int]));
            assert(next.drop_last() =~= lead.take(j as int));
            assert(next.last() == lead[j as int]);
            assert(digits_value(next) == digits_value(lead.take(j as int)) * 10 + digit_value(
                lead[j as int],
            ));
            lemma_digits_value_prefix(lead, j + 1);
        }
        let c = if j < a {
            chars[j]
        } else {
            chars[j + 1]
        };
        let d = ((c as u8) - 48u8) as u64;
        units = units * 10 + d;
        assert(units == digits_value(next));
        if units > WINRATE_ONE {
            return None;
        }
        j = j + 1;
    }
    Some(units)
}

/// Reads `pad` zeros after the first `len` digits of `lead`, which write
/// `units`.  Gives up where all of them write more than one.
fn read_zeros(units: u64, pad: u8, Ghost(lead): Ghost<Seq<char>>, Ghost(len): Ghost<int>) -> (res:
    Option<u64>)
    requires
        0 <= len,
        len + pad == lead.len(),
        pad < 19,
        units <= WINRATE_ONE,
        units == digits_value(lead.take(len)),
        forall|j: int| len <= j < lead.len() ==> #[trigger] lead[j] == '0',
    ensures
        match res {
            Some(all) => all <= WINRATE_ONE && all == digits_value(lead),
            None => digits_value(lead) > WINRATE_ONE,
        },
{
    let mut all = units;
    let mut t: u8 = 0;
    while t < pad
        invariant
            t <= pad < 19,
            0 <= len,
            len + pad == lead.len(),
            forall|j: int| len <= j < lead.len() ==> #[trigger] lead[j] == '0',
            all <= WINRATE_ONE,
            all == digits_value(lead.take(len + t)),
        decreases pad - t,
    {
        let ghost next = lead.take(len + t + 1);
        proof {
            assert(lead[len + t] == '0');
            assert(digit_value('0') == 0);
            assert(next.drop_last() =~= lead.take(len + t));
            assert(next.last() == lead[len + t]);
            assert(digits_value(next) == digits_value(lead.take(len + t)) * 10 + digit_value(
                next.last(),
            ));
            lemma_digits_value_prefix(lead, len + t + 1);
        }
        all = all * 10;
        assert(all == digits_value(next));
        if all > WINRATE_ONE {
            return None;
        }
        t = t + 1;
    }
    assert(lead.take(len + pad) =~= lead);
    Some(all)
}

/// The units of a number whose parts have been found: the digits before
/// the point end at `a`, those after it at `b`, and the exponent is `e`,
/// or no less than `e` where that is the cap, below zero if `negative`.
fn units_of(
    chars: &Vec<char>,
    a: usize,
    b: usize,
    negative: bool,
    e: u128,
    Ghost(parts): Ghost<NumberParts>,
) -> (res: Option<u64>)
    requires
        0 < a <= b <= chars@.len(),
        b == a || a + 1 < b,
        parts.whole == chars@.subrange(0, a as int),
        parts.fraction == if b == a {
            Seq::<char>::empty()
        } else {
            chars@.subrange(a + 1, b as int)
        },
        all_digits(parts.whole),
        all_digits(parts.fraction),
        negative ==> parts.exponent <= 0,
        !negative ==> parts.exponent >= 0,
        e <= EXPONENT_CAP,
        e < EXPONENT_CAP ==> e == if negative {
            -parts.exponent
        } else {
            parts.exponent
        },
        e == EXPONENT_CAP ==> e <= if negative {
            -parts.exponent
        } else {
            parts.exponent
        },
    ensures
        res == if number_units(parts, WINRATE_PLACES as nat) <= WINRATE_ONE {
            Some(number_units(parts, WINRATE_PLACES as nat) as u64)
        } else {
            None
        },
{
    let ghost digits = parts.whole + parts.fraction;
    let ghost count: int = parts.whole.len() + 18 + parts.exponent;
    let ghost lead = leading_digits(digits, count);
    let len: usize = if b == a {
        a
    } else {
        b - 1
    };
    let near: i128 = if negative {
        (a as i128) + 18 - (e as i128)
    } else {
        (a as i128) + 18 + (e as i128)
    };
    proof {
        assert(number_units(parts, WINRATE_PLACES as nat) == digits_value(lead));
        assert(digits.len() == len);
        assert(negative ==> count <= near);
        assert(!negative ==> near <= count);
        assert(e < EXPONENT_CAP ==> near == count);
        assert forall|j: int| 0 <= j < lead.len() implies is_digit(#[trigger] lead[j]) by {
            if j < len {
                if j < a {
                    assert(digits[j] == parts.whole[j]);
                } else {
                    assert(digits[j] == parts.fraction[j - a]);
                }
            }
        }
        assert forall|j: int| 0 <= j < len && j < lead.len() implies 0 <= digit_place(a as int, j)
            < chars@.len() && #[trigger] lead[j] == chars@[digit_place(a as int, j)] by {
            if j < a {
                assert(digits[j] == parts.whole[j]);
            } else {
                assert(digits[j] == parts.fraction[j - a]);
            }
        }
    }
    if near <= 0 {
        assert(lead =~= Seq::<char>::empty());
        return Some(0);
    }
    let kept: usize = if near >= len as i128 {
        len
    } else {
        near as usize
    };
    assert(digits_placed(chars@, a as int, kept as int, lead));
    let units = match read_leading(chars, a, kept, Ghost(lead)) {
        Some(units) => units,
        None => {
            return None;
        },
    };
    if near <= len as i128 {
        assert(lead.take(kept as int) =~= lead);
        return Some(units);
    }
    let pad: i128 = near - (len as i128);
    let ghost zeros = (count - len) as nat;
    proof {
        assert(lead.take(len as int) =~= digits);
        assert(lead =~= digits + Seq::new(zeros, |k: int| '0'));
        lemma_digits_value_zeros(digits, zeros);
        assert(digits_value(lead) == units * pow10(zeros));
    }
    if units == 0 {
        assert(units * pow10(zeros) == 0) by (nonlinear_arith)
            requires
                units == 0,
        ;
        return Some(0);
    }
    if pad >= 19 {
        proof {
            lemma_pow10_grows(19, zeros);
            lemma_pow10_19();
            assert(units * pow10(zeros) > WINRATE_ONE) by (nonlinear_arith)
                requires
                    units >= 1,
                    pow10(zeros) >= 10_000_000_000_000_000_000,
            ;
        }
        return None;
    }
    assert(near == count);
    read_zeros(units, pad as u8, Ghost(lead), Ghost(len as int))
}

/// Ten to the power of 19.
proof fn lemma_pow10_19()
    ensures
        pow10(19) == 10_000_000_000_000_000_000,
{
    reveal_with_fuel(pow10, 20);
}

/// Reads a win-rate.
pub fn parse_winrate(text: &str) -> (res: Option<Winrate>)
    ensures
        res == text_winrate(text@),
        res matches Some(winrate) ==> winrate.valid(),
{
    let chars = chars_of(text);
    let n = chars.len();
    let a = scan_digits(&chars, 0);
    if a == 0 {
        return None;
    }
    let has_point = a < n && chars[a] == '.';
    let b = if has_point {
        scan_digits(&chars, a + 1)
    } else {
        a
    };
    if has_point && b == a + 1 {
        return None;
    }
    let has_exponent = b < n && (chars[b] == 'e' || chars[b] == 'E');
    let signed = has_exponent && b + 1 < n && (chars[b + 1] == '+' || chars[b + 1] == '-');
    let negative = signed && chars[b + 1] == '-';
    let c = if signed {
        b + 2
    } else if has_exponent {
        b + 1
    } else {
        b
    };
    let d = if has_exponent {
        scan_digits(&chars, c)
    } else {
        b
    };
    if (has_exponent && d == c) || d != n {
        return None;
    }
    let e = if has_exponent {
        read_capped(&chars, c, d)
    } else {
        0
    };
    let ghost parts = number_parts(text@).unwrap();
    let end = if has_point {
        b
    } else {
        a
    };
    match units_of(&chars, a, end, negative, e, Ghost(parts)) {
        Some(units) => Some(Winrate { units }),
        None => None,
    }
}

} // verus!
