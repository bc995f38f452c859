//! The text of a level file: decimal numbers separated by commas.
//!
//! A number may have a sign, digits, and a point followed by more digits;
//! at least one digit there must be. Blanks around a number do not count,
//! and a piece between two commas that holds only blanks holds no number.
//! A number is read to six decimal places, further places are dropped, and
//! what lies beyond the saturation limit is brought back to it.

use vstd::prelude::*;
use crate::fixed::{LIMIT, UNIT, clamp, saturate};
use crate::settings::LoadError;

verus! {

/// Whether a byte is a blank: a space, a tab, or the end of a line.
pub open spec fn is_space(b: u8) -> bool {
    b == 32 || b == 9 || b == 10 || b == 13
}

/// Whether a byte is a decimal digit.
pub open spec fn is_digit(b: u8) -> bool {
    48 <= b <= 57
}

/// The first index from `i` on at which `s` holds no blank, or the length of
/// `s`.
pub open spec fn skip_spaces(s: Seq<u8>, i: int) -> int
    decreases s.len() - i,
{
    if 0 <= i < s.len() && is_space(s[i]) {
        skip_spaces(s, i + 1)
    } else {
        i
    }
}

/// The first index from `i` on at which `s` holds no digit, or the length of
/// `s`.
pub open spec fn digits_end(s: Seq<u8>, i: int) -> int
    decreases s.len() - i,
{
    if 0 <= i < s.len() && is_digit(s[i]) {
        digits_end(s, i + 1)
    } else {
        i
    }
}

/// The number that the digits of `s` from `from` up to `to` spell.
pub open spec fn digits_value(s: Seq<u8>, from: int, to: int) -> int
    decreases to - from,
{
    if to <= from {
        0
    } else {
        digits_value(s, from, to - 1) * 10 + (s[to - 1] - 48)
    }
}

/// What one decimal place is worth in raw units when `count` places are
/// written, for up to six places.
pub open spec fn place_value(count: int) -> int {
    if count <= 0 {
        1_000_000
    } else if count == 1 {
        100_000
    } else if count == 2 {
        10_000
    } else if count == 3 {
        1_000
    } else if count == 4 {
        100
    } else if count == 5 {
        10
    } else {
        1
    }
}

/// The raw value of the decimal places of `s` from `from` up to `to`: the
/// first six count, the others are dropped.
pub open spec fn fraction_value(s: Seq<u8>, from: int, to: int) -> int {
    let kept = if to - from > 6 {
        from + 6
    } else {
        to
    };
    digits_value(s, from, kept) * place_value(kept - from)
}

/// What a piece of text between two commas holds: nothing at all if it does
/// not spell a number, no number if it is blank, else the number.
pub open spec fn number_of(s: Seq<u8>) -> Option<Option<i64>> {
    let a = skip_spaces(s, 0);
    if a >= s.len() {
        Some(None)
    } else {
        let negative = s[a] == 45;
        let b = if s[a] == 45 || s[a] == 43 {
            a + 1
        } else {
            a
        };
        let c = digits_end(s, b);
        let d = if c < s.len() && s[c] == 46 {
            c + 1
        } else {
            c
        };
        let e = digits_end(s, d);
        if skip_spaces(s, e) >= s.len() && (c > b || e > d) {
            let magnitude = digits_value(s, b, c) * UNIT + fraction_value(s, d, e);
            Some(Some(clamp(if negative { -magnitude } else { magnitude })))
        } else {
            None
        }
    }
}

/// Where the piece that starts at `from` ends: at the next comma, or at the
/// end of the text.
pub open spec fn piece_end(text: Seq<u8>, from: int) -> int
    decreases text.len() - from,
{
    if 0 <= from < text.len() && text[from] != 44 {
        piece_end(text, from + 1)
    } else {
        from
    }
}

/// The numbers of the text from `from` on, piece by piece; nothing if a
/// piece does not spell a number.
pub open spec fn parsed_from(text: Seq<u8>, from: int) -> Option<Seq<i64>>
    decreases text.len() - from,
{
    if from < 0 || from > text.len() || piece_end(text, from) < from || piece_end(text, from)
        > text.len() {
        None
    } else {
        let end = piece_end(text, from);
        match number_of(text.subrange(from, end)) {
            None => None,
            Some(head) => {
                let rest = if end >= text.len() {
                    Some(Seq::<i64>::empty())
                } else {
                    parsed_from(text, end + 1)
                };
                match (head, rest) {
                    (_, None) => None,
                    (Some(v), Some(tail)) => Some(seq![v] + tail),
                    (None, Some(tail)) => Some(tail),
                }
            },
        }
    }
}

/// The numbers of a text; nothing if a piece of it does not spell a number.
pub open spec fn parsed(text: Seq<u8>) -> Option<Seq<i64>> {
    parsed_from(text, 0)
}

/// A piece ends within the text, at a comma or at the text's end, and holds
/// no comma.
pub proof fn lemma_piece_end(text: Seq<u8>, from: int)
    requires
        0 <= from <= text.len(),
    ensures
        from <= piece_end(text, from) <= text.len(),
        piece_end(text, from) < text.len() ==> text[piece_end(text, from)] == 44,
        forall|i: int| from <= i < piece_end(text, from) ==> text[i] != 44,
    decreases text.len() - from,
{
    if from < text.len() && text[from] != 44 {
        lemma_piece_end(text, from + 1);
    }
}

/// Whether a byte is a blank.
fn space(b: u8) -> (r: bool)
    ensures
        r == is_space(b),
{
    b == 32 || b == 9 || b == 10 || b == 13
}

/// Whether a byte is a decimal digit.
fn digit(b: u8) -> (r: bool)
    ensures
        r == is_digit(b),
{
    48 <= b && b <= 57
}

/// Where the piece that starts at `from` ends.
fn find_piece_end(text: &[u8], from: usize) -> (end: usize)
    requires
        from <= text@.len(),
    ensures
        end == piece_end(text@, from as int),
        from <= end <= text@.len(),
{
    let mut i: usize = from;
    while i < text.len() && text[i] != 44
        invariant
            from <= i <= text@.len(),
            piece_end(text@, from as int) == piece_end(text@, i as int),
        decreases text@.len() - i,
    {
        i = i + 1;
    }
    i
}

/// The first index from `i` on, within the piece from `start` to `end`, that
/// holds no blank.
fn skip_blanks(text: &[u8], start: usize, end: usize, i: usize) -> (j: usize)
    requires
        start <= i <= end <= text@.len(),
    ensures
        i <= j <= end,
        j - start == skip_spaces(text@.subrange(start as int, end as int), i - start),
{
    let ghost piece = text@.subrange(start as int, end as int);
    let mut j: usize = i;
    while j < end && space(text[j])
        invariant
            i <= j <= end,
            start <= i,
            end <= text@.len(),
            piece == text@.subrange(start as int, end as int),
            skip_spaces(piece, i - start) == skip_spaces(piece, j - start),
        decreases end - j,
    {
        assert(piece[j - start] == text@[j as int]);
        j = j + 1;
    }
    proof {
        if j < end {
            assert(piece[j - start] == text@[j as int]);
        }
    }
    j
}

/// Reads the digits from `b` on within the piece from `start` to `end`:
/// where they end, and the number they spell, but no more than two million.
fn read_whole(text: &[u8], start: usize, end: usize, b: usize) -> (r: (usize, i64))
    requires
        start <= b <= end <= text@.len(),
    ensures
        b <= r.0 <= end,
        r.0 - start == digits_end(text@.subrange(start as int, end as int), b - start),
        digits_value(text@.subrange(start as int, end as int), b - start, r.0 - start) >= 2_000_000 ==> r.1
            == 2_000_000,
        digits_value(text@.subrange(start as int, end as int), b - start, r.0 - start) < 2_000_000 ==> r.1
            == digits_value(text@.subrange(start as int, end as int), b - start, r.0 - start),
        0 <= r.1 <= 2_000_000,
{
    let ghost piece = text@.subrange(start as int, end as int);
    let mut c: usize = b;
    let mut acc: i64 = 0;
    while c < end && digit(text[c])
        invariant
            b <= c <= end,
            start <= b,
            end <= text@.len(),
            piece == text@.subrange(start as int, end as int),
            digits_end(piece, b - start) == digits_end(piece, c - start),
            0 <= acc <= 2_000_000,
            0 <= digits_value(piece, b - start, c - start),
            digits_value(piece, b - start, c - start) >= 2_000_000 ==> acc == 2_000_000,
            digits_value(piece, b - start, c - start) < 2_000_000 ==> acc == digits_value(
                piece,
                b - start,
                c - start,
            ),
        decreases end - c,
    {
        assert(piece[c - start] == text@[c as int]);
        let next: i64 = acc * 10 + (text[c] - 48) as i64;
        acc = if next > 2_000_000 {
            2_000_000
        } else {
            next
        };
        c = c + 1;
    }
    proof {
        if c < end {
            assert(piece[c - start] == text@[c as int]);
        }
    }
    (c, acc)
}

/// What one decimal place is worth in raw units when `count` places are
/// written.
fn place(count: usize) -> (r: i64)
    requires
        count <= 6,
    ensures
        r == place_value(count as int),
{
    if count == 0 {
        1_000_000
    } else if count == 1 {
        100_000
    } else if count == 2 {
        10_000
    } else if count == 3 {
        1_000
    } else if count == 4 {
        100
    } else if count == 5 {
        10
    } else {
        1
    }
}

/// Reads the decimal places from `d` on within the piece from `start` to
/// `end`: where they end, and their raw value.
fn read_fraction(text: &[u8], start: usize, end: usize, d: usize) -> (r: (usize, i64))
    requires
        start <= d <= end <= text@.len(),
    ensures
        d <= r.0 <= end,
        r.0 - start == digits_end(text@.subrange(start as int, end as int), d - start),
        r.1 == fraction_value(text@.subrange(start as int, end as int), d - start, r.0 - start),
        0 <= r.1 < 1_000_000,
{
    let ghost piece = text@.subrange(start as int, end as int);
    let mut e: usize = d;
    let mut acc: i64 = 0;
    while e < end && e - d < 6 && digit(text[e])
        invariant
            d <= e <= end,
            e - d <= 6,
            start <= d,
            end <= text@.len(),
            piece == text@.subrange(start as int, end as int),
            digits_end(piece, d - start) == digits_end(piece, e - start),
            acc == digits_value(piece, d - start, e - start),
            0 <= acc,
            (acc + 1) * place_value(e - d) <= 1_000_000,
        decreases end - e,
    {
        assert(piece[e - start] == text@[e as int]);
        assert((acc * 10 + 10) * place_value(e - d + 1) <= 1_000_000) by (nonlinear_arith)
            requires
                (acc + 1) * place_value(e - d) <= 1_000_000,
                place_value(e - d) == 10 * place_value(e - d + 1),
                0 <= acc,
        ;
        let ghost shifted = acc * 10 + 10;
        acc = acc * 10 + (text[e] - 48) as i64;
        e = e + 1;
        assert((acc + 1) * place_value(e - d) <= shifted * place_value(e - d)) by (nonlinear_arith)
            requires
                acc + 1 <= shifted,
                place_value(e - d) >= 0,
        ;
    }
    let kept: usize = e - d;
    assert(0 <= acc * place_value(kept as int) < 1_000_000) by (nonlinear_arith)
        requires
            (acc + 1) * place_value(kept as int) <= 1_000_000,
            place_value(kept as int) >= 1,
            0 <= acc,
    ;
    let value: i64 = acc * place(kept);
    let ghost kept_end = e;
    while e < end && digit(text[e])
        invariant
            d <= kept_end <= e <= end,
            start <= d,
            end <= text@.len(),
            piece == text@.subrange(start as int, end as int),
            digits_end(piece, d - start) == digits_end(piece, e - start),
            kept_end - d == 6 || kept_end >= end || !is_digit(text@[kept_end as int]),
            kept_end - d <= 6,
        decreases end - e,
    {
        assert(piece[e - start] == text@[e as int]);
        e = e + 1;
    }
    proof {
        if e < end {
            assert(piece[e - start] == text@[e as int]);
        }
        if kept_end < end && kept_end - d < 6 {
            assert(piece[kept_end - start] == text@[kept_end as int]);
        }
    }
    (e, value)
}

/// Reads the piece of the text from `start` to `end`: an error if it does
/// not spell a number, no number if it is blank, else the number.
fn read_piece(text: &[u8], start: usize, end: usize) -> (r: Result<Option<i64>, LoadError>)
    requires
        start <= end <= text@.len(),
    ensures
        match number_of(text@.subrange(start as int, end as int)) {
            None => r == Err::<Option<i64>, LoadError>(LoadError::Malformed),
            Some(found) => r == Ok::<Option<i64>, LoadError>(found),
        },
{
    let ghost piece = text@.subrange(start as int, end as int);
    let a: usize = skip_blanks(text, start, end, start);
    if a >= end {
        return Ok(None);
    }
    assert(piece[a - start] == text@[a as int]);
    let negative: bool = text[a] == 45;
    let b: usize = if text[a] == 45 || text[a] == 43 {
        a + 1
    } else {
        a
    };
    let (c, whole): (usize, i64) = read_whole(text, start, end, b);
    proof {
        if c < end {
            assert(piece[c - start] == text@[c as int]);
        }
    }
    let d: usize = if c < end && text[c] == 46 {
        c + 1
    } else {
        c
    };
    let (e, fraction): (usize, i64) = read_fraction(text, start, end, d);
    let f: usize = skip_blanks(text, start, end, e);
    if f < end || (c == b && e == d) {
        return Err(LoadError::Malformed);
    }
    if whole > 1_000_000 {
        proof {
            let exact = digits_value(piece, b - start, c - start);
            assert(exact >= 1_000_001);
            assert(exact * UNIT + fraction > LIMIT) by (nonlinear_arith)
                requires
                    exact >= 1_000_001,
                    fraction >= 0,
                    UNIT == 1_000_000,
                    LIMIT == 1_000_000_000_000,
            ;
        }
        if negative {
            Ok(Some(-LIMIT))
        } else {
            Ok(Some(LIMIT))
        }
    } else {
        let magnitude: i64 = whole * UNIT + fraction;
        if negative {
            Ok(Some(saturate(-(magnitude as i128))))
        } else {
            Ok(Some(saturate(magnitude as i128)))
        }
    }
}

/// What the numbers read so far and the numbers of the rest make together.
pub open spec fn joined(read: Seq<i64>, rest: Option<Seq<i64>>) -> Option<Seq<i64>> {
    match rest {
        None => None,
        Some(tail) => Some(read + tail),
    }
}

/// Reads the numbers of a text. A text in which some piece does not spell a
/// number is refused.
pub fn numbers(text: &[u8]) -> (r: Result<Vec<i64>, LoadError>)
    ensures
        match parsed(text@) {
            None => r == Err::<Vec<i64>, LoadError>(LoadError::Malformed),
            Some(found) => r.is_ok() && r.unwrap()@ == found,
        },
{
    let n: usize = text.len();
    let mut out: Vec<i64> = Vec::new();
    let mut start: usize = 0;
    assert(out@ + parsed_from(text@, 0).unwrap() =~= parsed_from(text@, 0).unwrap());
    loop
        invariant
            start <= n,
            n == text@.len(),
            parsed(text@) == joined(out@, parsed_from(text@, start as int)),
        decreases n - start,
    {
        proof {
            lemma_piece_end(text@, start as int);
        }
        let end: usize = find_piece_end(text, start);
        let ghost before = out@;
        let ghost head = number_of(text@.subrange(start as int, end as int));
        match read_piece(text, start, end) {
            Err(_) => {
                return Err(LoadError::Malformed);
            },
            Ok(Some(v)) => {
                out.push(v);
            },
            Ok(None) => {},
        }
        if end >= n {
            proof {
                assert(out@ + Seq::<i64>::empty() =~= out@);
                match head.unwrap() {
                    Some(v) => {
                        assert(before + (seq![v] + Seq::<i64>::empty()) =~= out@);
                    },
                    None => {
                        assert(before + Seq::<i64>::empty() =~= out@);
                    },
                }
            }
            return Ok(out);
        }
        proof {
            match parsed_from(text@, end + 1) {
                Some(tail) => {
                    match head.unwrap() {
                        Some(v) => {
                            assert(before + (seq![v] + tail) =~= out@ + tail);
                        },
                        None => {},
                    }
                },
                None => {},
            }
        }
        start = end + 1;
    }
}

} // verus!
