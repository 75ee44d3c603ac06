//! A walk through the text of a game record that tells whether every
//! property value that stands for a point of the board is written with
//! characters that can stand for one.

use vstd::prelude::*;
use crate::text::chars_of;

verus! {

/// What the name of a property says of its values.
#[derive(Clone, Copy, Debug, PartialEq, Eq, Structural)]
pub enum ValueKind {
    /// A point of the board, written as two letters: the values of `B`,
    /// `W`, `AB`, `AW`, `SQ` and `TR`.
    Point,
    /// A point, a colon and a text: the values of `LB`.
    Label,
    /// Anything else.
    Plain,
}

/// Where a walk through the text of a record stands.
#[derive(Clone, Copy, Debug, PartialEq, Eq, Structural)]
pub struct Scan {
    /// How many capital letters the name of the property at hand has had so
    /// far, counted up to three.
    pub capitals: u8,
    /// The first of them.
    pub first: char,
    /// The second of them.
    pub second: char,
    /// Whether a value of the property has ended, so that the next letter
    /// begins the name of another property.
    pub closed: bool,
    /// Whether the walk is inside a value.
    pub in_value: bool,
    /// Whether the last character of the value was a backslash, after
    /// which a closing bracket does not end the value.
    pub escaping: bool,
    /// How many characters of the value have passed, counted up to three.
    pub seen: u8,
    /// Whether every character so far could stand where it stands.
    pub safe: bool,
}

/// The walk before the first character.
pub open spec fn scan_start() -> Scan {
    Scan {
        capitals: 0,
        first: ' ',
        second: ' ',
        closed: false,
        in_value: false,
        escaping: false,
        seen: 0,
        safe: true,
    }
}

/// What a name with the given capital letters says of its values.
pub open spec fn value_kind(capitals: u8, first: char, second: char) -> ValueKind {
    if capitals == 2 && first == 'L' && second == 'B' {
        ValueKind::Label
    } else if (capitals == 1 && (first == 'B' || first == 'W')) || (capitals == 2 && ((first
        == 'A' && (second == 'B' || second == 'W')) || (first == 'S' && second == 'Q') || (first
        == 'T' && second == 'R'))) {
        ValueKind::Point
    } else {
        ValueKind::Plain
    }
}

/// Whether a character can stand at a place of a value.  The two
/// characters of a point come after `%` in the character set, and the
/// point, the colon and the first character of the text of a label are
/// ASCII.
pub open spec fn value_char_safe(kind: ValueKind, place: u8, c: char) -> bool {
    match kind {
        ValueKind::Point => place >= 2 || c as int >= 38,
        ValueKind::Label => (place >= 2 || c as int >= 38) && (place >= 3 || (c as int) < 128),
        ValueKind::Plain => true,
    }
}

/// Whether a character is a letter of the ASCII alphabet.
pub open spec fn is_letter(c: char) -> bool {
    65 <= c as int <= 90 || 97 <= c as int <= 122
}

/// The walk after one more character.  Outside a value, letters make up
/// the name of a property, blanks and line breaks are passed over, an
/// opening bracket begins a value, and anything else ends the property.
/// Inside a value, a closing bracket ends it unless a backslash stands
/// right before.
pub open spec fn scan_step(state: Scan, c: char) -> Scan {
    if state.in_value {
        if c == ']' && !state.escaping {
            Scan { in_value: false, closed: true, ..state }
        } else {
            Scan {
                escaping: c == '\\',
                seen: if state.seen < 3 {
                    (state.seen + 1) as u8
                } else {
                    state.seen
                },
                safe: state.safe && value_char_safe(
                    value_kind(state.capitals, state.first, state.second),
                    state.seen,
                    c,
                ),
                ..state
            }
        }
    } else if c == '[' {
        Scan { in_value: true, escaping: false, seen: 0, ..state }
    } else if is_letter(c) {
        let capitals = if state.closed {
            0u8
        } else {
            state.capitals
        };
        if c as int <= 90 {
            Scan {
                capitals: if capitals < 3 {
                    (capitals + 1) as u8
                } else {
                    capitals
                },
                first: if capitals == 0 {
                    c
                } else {
                    state.first
                },
                second: if capitals == 1 {
                    c
                } else {
                    state.second
                },
                closed: false,
                ..state
            }
        } else {
            Scan { capitals, closed: false, ..state }
        }
    } else if c == ' ' || c == '\n' || c == '\r' {
        state
    } else {
        Scan { capitals: 0, closed: false, ..state }
    }
}

/// The walk after the first `upto` characters of a text.
pub open spec fn scanned(text: Seq<char>, upto: int) -> Scan
    decreases upto,
{
    if upto <= 0 {
        scan_start()
    } else {
        scan_step(scanned(text, upto - 1), text[upto - 1])
    }
}

/// Whether every value of the text that stands for a point is written
/// with characters that can stand for one.
pub open spec fn record_safe(text: Seq<char>) -> bool {
    scanned(text, text.len() as int).safe
}

/// Takes the walk one character further.
fn step(state: Scan, c: char) -> (res: Scan)
    ensures
        res == scan_step(state, c),
{
    let code = c as u32;
    let mut next = state;
    if state.in_value {
        if c == ']' && !state.escaping {
            next.in_value = false;
            next.closed = true;
        } else {
            let label = state.capitals == 2 && state.first == 'L' && state.second == 'B';
            let point = !label && ((state.capitals == 1 && (state.first == 'B' || state.first
                == 'W')) || (state.capitals == 2 && ((state.first == 'A' && (state.second == 'B'
                || state.second == 'W')) || (state.first == 'S' && state.second == 'Q') || (
            state.first == 'T' && state.second == 'R'))));
            let fits = if point {
                state.seen >= 2 || code >= 38
            } else if label {
                (state.seen >= 2 || code >= 38) && (state.seen >= 3 || code < 128)
            } else {
                true
            };
            next.escaping = c == '\\';
            if state.seen < 3 {
                next.seen = state.seen + 1;
            }
            next.safe = state.safe && fits;
        }
    } else if c == '[' {
        next.in_value = true;
        next.escaping = false;
        next.seen = 0;
    } else if (65 <= code && code <= 90) || (97 <= code && code <= 122) {
        let capitals = if state.closed {
            0
        } else {
            state.capitals
        };
        next.capitals = capitals;
        next.closed = false;
        if code <= 90 {
            if capitals < 3 {
                next.capitals = capitals + 1;
            }
            if capitals == 0 {
                next.first = c;
            }
            if capitals == 1 {
                next.second = c;
            }
        }
    } else if c == ' ' || c == '\n' || c == '\r' {
    } else {
        next.capitals = 0;
        next.closed = false;
    }
    next
}

/// Tests `record_safe`.
pub fn is_record_safe(text: &str) -> (res: bool)
    ensures
        res == record_safe(text@),
{
    let chars = chars_of(text);
    let mut state = Scan {
        capitals: 0,
        first: ' ',
        second: ' ',
        closed: false,
        in_value: false,
        escaping: false,
        seen: 0,
        safe: true,
    };
    let mut i: usize = 0;
    while i < chars.len()
        invariant
            i <= chars@.len(),
            chars@ == text@,
            state == scanned(chars@, i as int),
        decreases chars@.len() - i,
    {
        state = step(state, chars[i]);
        i = i + 1;
    }
    state.safe
}

} // verus!
