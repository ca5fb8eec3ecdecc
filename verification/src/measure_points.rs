//! Measurement points and their selectors: from lists of point numbers to
//! two-byte selectors and back, as text.

use crate::error::DecodeError;
use crate::frame_fun::{pow2_u8, FrameFun};
use crate::frame_values::{measurement_points, points_upto};
use crate::text::{
    all_digits, chars_of, decimal_text, decimal_value, hex_pair, parse_decimal, push_decimal,
    push_hex_pair, sub_chars,
};
use vstd::prelude::*;

verus! {

/// The namespace of the selector functions.
pub struct FrameCsg;

/// The selector of one point: `00 00` for the terminal (0), `FF FF` for
/// every point (`0xFFFF`), else one bit in the group of eight that holds the
/// point. Points above 2040 have no selector.
pub open spec fn selector_of(p: u16) -> Option<(u8, u8)> {
    if p == 0 {
        Some((0u8, 0u8))
    } else if p == 0xFFFF {
        Some((0xFFu8, 0xFFu8))
    } else if p <= 2040 {
        Some((pow2_u8((p - 1) % 8), ((p - 1) / 8 + 1) as u8))
    } else {
        None
    }
}

/// The selectors of the first `n` points, one for each point.
pub open spec fn single_selectors(points: Seq<u16>, n: int) -> Option<Seq<(u8, u8)>>
    decreases n,
{
    if n <= 0 || n > points.len() {
        Some(Seq::empty())
    } else {
        match (single_selectors(points, n - 1), selector_of(points[n - 1])) {
            (Some(rest), Some(s)) => Some(rest.push(s)),
            _ => None,
        }
    }
}

/// Whether a point lies in a group of eight and not at one of the two
/// special values.
pub open spec fn is_grouped(p: u16) -> bool {
    1 <= p <= 2040
}

/// The selectors with one more point: a point that lies in the group of the
/// last selector joins it, any other gets a selector of its own.
pub open spec fn with_point(selectors: Seq<(u8, u8)>, grouped_before: bool, p: u16) -> Seq<(u8, u8)>
    recommends
        selector_of(p) is Some,
{
    let s = selector_of(p)->0;
    if is_grouped(p) && grouped_before && selectors.len() > 0 && selectors.last().1 == s.1 {
        selectors.update(selectors.len() - 1, (selectors.last().0 | s.0, s.1))
    } else {
        selectors.push(s)
    }
}

/// The selectors of the first `n` points, points that follow each other in
/// one group sharing a selector.
pub open spec fn merged_selectors(points: Seq<u16>, n: int) -> Option<Seq<(u8, u8)>>
    decreases n,
{
    if n <= 0 || n > points.len() {
        Some(Seq::empty())
    } else {
        match merged_selectors(points, n - 1) {
            Some(rest) => if selector_of(points[n - 1]) is Some {
                Some(with_point(rest, n >= 2 && is_grouped(points[n - 2]), points[n - 1]))
            } else {
                None
            },
            None => None,
        }
    }
}

/// Selectors as text: four hexadecimal digits each, joined by commas.
pub open spec fn selectors_text(selectors: Seq<(u8, u8)>) -> Seq<char>
    decreases selectors.len(),
{
    if selectors.len() == 0 {
        Seq::empty()
    } else if selectors.len() == 1 {
        hex_pair(selectors[0].0) + hex_pair(selectors[0].1)
    } else {
        selectors_text(selectors.drop_last()) + seq![','] + (hex_pair(selectors.last().0)
            + hex_pair(selectors.last().1))
    }
}

/// Why a list of points could not be turned into selectors.
#[derive(Debug, Clone, Copy, PartialEq, Eq, Structural)]
pub enum PointError {
    /// A range with more than one hyphen.
    BadRange,
    /// The start of a range is no number below 65536.
    BadStart,
    /// The end of a range is no number below 65536.
    BadEnd,
    /// The start of a range lies behind its end.
    Descending,
    /// An entry is no number below 65536.
    BadNumber,
    /// The list names no point.
    NoPoints,
    /// A point has no selector.
    OutOfRange,
}

/// The number below 65536 that decimal digits write.
pub open spec fn number16(s: Seq<char>) -> Option<u16> {
    if s.len() > 0 && all_digits(s) && decimal_value(s) <= 0xFFFF {
        Some(decimal_value(s) as u16)
    } else {
        None
    }
}

/// The index of the first hyphen from `from` on.
pub open spec fn first_hyphen(s: Seq<char>, from: int) -> Option<int>
    decreases s.len() - from,
{
    if from < 0 || from >= s.len() {
        None
    } else if s[from] == '-' {
        Some(from)
    } else {
        first_hyphen(s, from + 1)
    }
}

/// The range that one entry of a list of points names: a number, or two
/// numbers with a hyphen between them, the first not above the second. An
/// empty entry names nothing.
pub open spec fn range_of(entry: Seq<char>) -> Result<Option<(u16, u16)>, PointError> {
    if entry.len() == 0 {
        Ok(None)
    } else {
        match first_hyphen(entry, 0) {
            None => match number16(entry) {
                Some(n) => Ok(Some((n, n))),
                None => Err(PointError::BadNumber),
            },
            Some(k) => if first_hyphen(entry, k + 1) is Some {
                Err(PointError::BadRange)
            } else {
                match number16(entry.subrange(0, k)) {
                    None => Err(PointError::BadStart),
                    Some(a) => match number16(entry.subrange(k + 1, entry.len() as int)) {
                        None => Err(PointError::BadEnd),
                        Some(b) => if a > b {
                            Err(PointError::Descending)
                        } else {
                            Ok(Some((a, b)))
                        },
                    },
                }
            },
        }
    }
}

/// The ranges with what one more entry names.
pub open spec fn with_entry(ranges: Seq<(u16, u16)>, entry: Seq<char>) -> Result<
    Seq<(u16, u16)>,
    PointError,
> {
    match range_of(entry) {
        Ok(Some(r)) => Ok(ranges.push(r)),
        Ok(None) => Ok(ranges),
        Err(e) => Err(e),
    }
}

/// The ranges that a comma-separated list names, read from the entry that
/// starts at `start` and is read up to `pos`, behind the ranges `ranges`
/// that the entries before it name.
pub open spec fn ranges_from(text: Seq<char>, start: int, pos: int, ranges: Seq<(u16, u16)>) -> Result<
    Seq<(u16, u16)>,
    PointError,
>
    decreases text.len() - pos,
{
    if pos < 0 || start < 0 || start > pos || pos > text.len() {
        Ok(ranges)
    } else if pos == text.len() {
        with_entry(ranges, text.subrange(start, pos))
    } else if text[pos] == ',' {
        match with_entry(ranges, text.subrange(start, pos)) {
            Ok(more) => ranges_from(text, pos + 1, pos + 1, more),
            Err(e) => Err(e),
        }
    } else {
        ranges_from(text, start, pos + 1, ranges)
    }
}

/// Whether one of the first `n` ranges holds the point.
pub open spec fn covered(ranges: Seq<(u16, u16)>, n: int, p: int) -> bool
    decreases n,
{
    if n <= 0 || n > ranges.len() {
        false
    } else {
        (ranges[n - 1].0 <= p <= ranges[n - 1].1) || covered(ranges, n - 1, p)
    }
}

/// The points below `upto` that the ranges hold, each once, in ascending
/// order.
pub open spec fn ascending_points(ranges: Seq<(u16, u16)>, upto: int) -> Seq<u16>
    decreases upto,
{
    if upto <= 0 {
        Seq::empty()
    } else {
        let rest = ascending_points(ranges, upto - 1);
        if covered(ranges, ranges.len() as int, upto - 1) {
            rest.push((upto - 1) as u16)
        } else {
            rest
        }
    }
}

/// The selectors, as text, of the points that a list names. The list holds
/// numbers and ranges of numbers, separated by commas; each point counts
/// once, and the points are taken in ascending order. With `continuous`,
/// points that follow each other in one group share a selector.
pub open spec fn points_to_selectors(text: Seq<char>, continuous: bool) -> Result<
    Seq<char>,
    PointError,
> {
    match ranges_from(text, 0, 0, Seq::empty()) {
        Err(e) => Err(e),
        Ok(ranges) => {
            let points = ascending_points(ranges, 65536);
            let selectors = if continuous {
                merged_selectors(points, points.len() as int)
            } else {
                single_selectors(points, points.len() as int)
            };
            if points.len() == 0 {
                Err(PointError::NoPoints)
            } else {
                match selectors {
                    Some(s) => Ok(selectors_text(s)),
                    None => Err(PointError::OutOfRange),
                }
            }
        },
    }
}

pub proof fn lemma_first_hyphen_skip(s: Seq<char>, from: int, to: int)
    requires
        0 <= from <= to <= s.len(),
        forall|j: int| from <= j < to ==> #[trigger] s[j] != '-',
    ensures
        first_hyphen(s, from) == first_hyphen(s, to),
    decreases to - from,
{
    if from < to {
        lemma_first_hyphen_skip(s, from + 1, to);
    }
}

/// The selector of a point in a group names that point and no other.
pub proof fn law_selector_names_its_point(p: u16)
    requires
        is_grouped(p),
    ensures
        selector_of(p) is Some,
        ({
            let s = selector_of(p)->0;
            measurement_points(seq![s.0, s.1]) == Ok::<Seq<u16>, DecodeError>(seq![p])
        }),
{
    let s = selector_of(p)->0;
    let da1 = s.0;
    let da2 = s.1;
    let b = (p - 1) % 8;
    assert(da2 >= 1);
    assert((da2 - 1) * 8 + b + 1 == p);
    lemma_one_bit_selects_one_point(da1, da2, b as int, 8);
}

/// Bit `m` of a byte in which bit `b` alone is set.
pub proof fn lemma_bit_of_power(b: int, m: int)
    requires
        0 <= b < 8,
        0 <= m < 8,
    ensures
        (pow2_u8(b) / pow2_u8(m)) % 2 == (if m == b {
            1int
        } else {
            0int
        }),
{
    let x = pow2_u8(b) as int;
    let y = pow2_u8(m) as int;
    if b < m {
        assert(x < y);
        assert(x / y == 0);
    } else if b == m {
        assert(x == y);
        assert(x / y == 1);
    } else {
        assert(x == y * 2 * pow2_u8(b - m - 1)) by {
            lemma_power_splits(b, m);
        }
        let q = 2 * pow2_u8(b - m - 1) as int;
        assert(x / y == q) by (nonlinear_arith)
            requires
                x == y * q,
                y > 0,
        ;
    }
}

/// A power of two is the product of two smaller ones.
pub proof fn lemma_power_splits(b: int, m: int)
    requires
        0 <= m < b < 8,
    ensures
        pow2_u8(b) as int == pow2_u8(m) as int * 2 * pow2_u8(b - m - 1) as int,
{
    let x = pow2_u8(b) as int;
    let y = pow2_u8(m) as int;
    let z = pow2_u8(b - m - 1) as int;
    if m == 0 && b == 1 {
        assert(x == 2 && y == 1 && z == 1);
    } else if m == 0 && b == 2 {
        assert(x == 4 && y == 1 && z == 2);
    } else if m == 0 && b == 3 {
        assert(x == 8 && y == 1 && z == 4);
    } else if m == 0 && b == 4 {
        assert(x == 16 && y == 1 && z == 8);
    } else if m == 0 && b == 5 {
        assert(x == 32 && y == 1 && z == 16);
    } else if m == 0 && b == 6 {
        assert(x == 64 && y == 1 && z == 32);
    } else if m == 0 && b == 7 {
        assert(x == 128 && y == 1 && z == 64);
    } else if m == 1 && b == 2 {
        assert(x == 4 && y == 2 && z == 1);
    } else if m == 1 && b == 3 {
        assert(x == 8 && y == 2 && z == 2);
    } else if m == 1 && b == 4 {
        assert(x == 16 && y == 2 && z == 4);
    } else if m == 1 && b == 5 {
        assert(x == 32 && y == 2 && z == 8);
    } else if m == 1 && b == 6 {
        assert(x == 64 && y == 2 && z == 16);
    } else if m == 1 && b == 7 {
        assert(x == 128 && y == 2 && z == 32);
    } else if m == 2 && b == 3 {
        assert(x == 8 && y == 4 && z == 1);
    } else if m == 2 && b == 4 {
        assert(x == 16 && y == 4 && z == 2);
    } else if m == 2 && b == 5 {
        assert(x == 32 && y == 4 && z == 4);
    } else if m == 2 && b == 6 {
        assert(x == 64 && y == 4 && z == 8);
    } else if m == 2 && b == 7 {
        assert(x == 128 && y == 4 && z == 16);
    } else if m == 3 && b == 4 {
        assert(x == 16 && y == 8 && z == 1);
    } else if m == 3 && b == 5 {
        assert(x == 32 && y == 8 && z == 2);
    } else if m == 3 && b == 6 {
        assert(x == 64 && y == 8 && z == 4);
    } else if m == 3 && b == 7 {
        assert(x == 128 && y == 8 && z == 8);
    } else if m == 4 && b == 5 {
        assert(x == 32 && y == 16 && z == 1);
    } else if m == 4 && b == 6 {
        assert(x == 64 && y == 16 && z == 2);
    } else if m == 4 && b == 7 {
        assert(x == 128 && y == 16 && z == 4);
    } else if m == 5 && b == 6 {
        assert(x == 64 && y == 32 && z == 1);
    } else if m == 5 && b == 7 {
        assert(x == 128 && y == 32 && z == 2);
    } else if m == 6 && b == 7 {
        assert(x == 128 && y == 64 && z == 1);
    }
}

/// A selector with one bit names one point.
pub proof fn lemma_one_bit_selects_one_point(da1: u8, da2: u8, b: int, n: int)
    requires
        0 <= b < 8,
        0 <= n <= 8,
        da1 == pow2_u8(b),
        da2 >= 1,
    ensures
        points_upto(da1, da2, n) == (if n > b {
            seq![((da2 - 1) * 8 + b + 1) as u16]
        } else {
            Seq::<u16>::empty()
        }),
    decreases n,
{
    if n > 0 {
        lemma_one_bit_selects_one_point(da1, da2, b, n - 1);
        lemma_bit_of_power(b, n - 1);
        assert(points_upto(da1, da2, n) =~= (if n > b {
            seq![((da2 - 1) * 8 + b + 1) as u16]
        } else {
            Seq::<u16>::empty()
        }));
    }
}

impl FrameCsg {
    /// The selector of one point; see [`selector_of`].
    pub fn selector(p: u16) -> (r: Option<(u8, u8)>)
        ensures
            r == selector_of(p),
    {
        if p == 0 {
            Some((0, 0))
        } else if p == 0xFFFF {
            Some((0xFF, 0xFF))
        } else if p <= 2040 {
            let bit = (p - 1) % 8;
            let weight: u8 = if bit == 0 {
                1
            } else if bit == 1 {
                2
            } else if bit == 2 {
                4
            } else if bit == 3 {
                8
            } else if bit == 4 {
                16
            } else if bit == 5 {
                32
            } else if bit == 6 {
                64
            } else {
                128
            };
            Some((weight, ((p - 1) / 8 + 1) as u8))
        } else {
            None
        }
    }

    /// One selector for each point, or `None` where a point has none.
    pub fn to_da_with_single(points: &[u16]) -> (r: Option<Vec<(u8, u8)>>)
        ensures
            match r {
                Some(s) => single_selectors(points@, points@.len() as int) == Some(s@),
                None => single_selectors(points@, points@.len() as int) is None,
            },
    {
        let mut out: Vec<(u8, u8)> = Vec::new();
        let mut i: usize = 0;
        while i < points.len()
            invariant
                i <= points.len(),
                single_selectors(points@, i as int) == Some(out@),
            decreases points.len() - i,
        {
            match Self::selector(points[i]) {
                Some(s) => {
                    out.push(s);
                },
                None => {
                    proof {
                        lemma_single_none(points@, i + 1, points@.len() as int);
                    }
                    return None;
                },
            }
            i += 1;
        }
        Some(out)
    }

    /// The selectors of the points, points that follow each other in one
    /// group sharing a selector, or `None` where a point has none.
    pub fn to_da_with_continuous(points: &[u16]) -> (r: Option<Vec<(u8, u8)>>)
        ensures
            match r {
                Some(s) => merged_selectors(points@, points@.len() as int) == Some(s@),
                None => merged_selectors(points@, points@.len() as int) is None,
            },
    {
        let mut out: Vec<(u8, u8)> = Vec::new();
        let mut i: usize = 0;
        while i < points.len()
            invariant
                i <= points.len(),
                merged_selectors(points@, i as int) == Some(out@),
            decreases points.len() - i,
        {
            let p = points[i];
            match Self::selector(p) {
                Some(s) => {
                    let grouped = 1 <= p && p <= 2040;
                    let before = i >= 1 && 1 <= points[i - 1] && points[i - 1] <= 2040;
                    let n = out.len();
                    if grouped && before && n > 0 && out[n - 1].1 == s.1 {
                        let joined = (out[n - 1].0 | s.0, s.1);
                        out.set(n - 1, joined);
                    } else {
                        out.push(s);
                    }
                },
                None => {
                    proof {
                        lemma_merged_none(points@, i + 1, points@.len() as int);
                    }
                    return None;
                },
            }
            i += 1;
        }
        Some(out)
    }

    /// Selectors as text; see [`selectors_text`].
    pub fn selectors_as_text(selectors: &Vec<(u8, u8)>) -> (text: String)
        ensures
            text@ == selectors_text(selectors@),
    {
        let mut text = String::new();
        let mut i: usize = 0;
        assert(text@ =~= selectors_text(selectors@.take(0)));
        while i < selectors.len()
            invariant
                i <= selectors.len(),
                text@ == selectors_text(selectors@.take(i as int)),
            decreases selectors.len() - i,
        {
            if i > 0 {
                text.push(',');
            }
            push_hex_pair(&mut text, selectors[i].0);
            push_hex_pair(&mut text, selectors[i].1);
            proof {
                let next = selectors@.take(i + 1);
                assert(next.drop_last() =~= selectors@.take(i as int));
                assert(next.last() == selectors@[i as int]);
                if i == 0 {
                    assert(next[0] == selectors@[0]);
                }
                assert(text@ =~= selectors_text(next));
            }
            i += 1;
        }
        assert(selectors@.take(i as int) =~= selectors@);
        text
    }

    /// The number below 65536 that decimal digits write.
    pub fn number16_of(s: &Vec<char>) -> (r: Option<u16>)
        ensures
            r == number16(s@),
    {
        match parse_decimal(s) {
            Some(v) => if v <= 0xFFFF {
                Some(v as u16)
            } else {
                None
            },
            None => None,
        }
    }

    /// The range that one entry names; see [`range_of`].
    #[verifier::loop_isolation(false)]
    pub fn range_from(entry: &Vec<char>) -> (r: Result<Option<(u16, u16)>, PointError>)
        ensures
            r == range_of(entry@),
    {
        let n = entry.len();
        if n == 0 {
            return Ok(None);
        }
        let mut k: usize = 0;
        while k < n && entry[k] != '-'
            invariant
                k <= n,
                forall|j: int| 0 <= j < k ==> #[trigger] entry@[j] != '-',
            decreases n - k,
        {
            k += 1;
        }
        proof {
            lemma_first_hyphen_skip(entry@, 0, k as int);
        }
        if k == n {
            return match Self::number16_of(entry) {
                Some(v) => Ok(Some((v, v))),
                None => Err(PointError::BadNumber),
            };
        }
        let mut m: usize = k + 1;
        while m < n && entry[m] != '-'
            invariant
                k < m <= n,
                forall|j: int| k < j < m ==> #[trigger] entry@[j] != '-',
            decreases n - m,
        {
            m += 1;
        }
        proof {
            lemma_first_hyphen_skip(entry@, k + 1, m as int);
        }
        if m < n {
            return Err(PointError::BadRange);
        }
        let a = match Self::number16_of(&sub_chars(entry, 0, k)) {
            Some(a) => a,
            None => {
                return Err(PointError::BadStart);
            },
        };
        let b = match Self::number16_of(&sub_chars(entry, k + 1, n)) {
            Some(b) => b,
            None => {
                return Err(PointError::BadEnd);
            },
        };
        if a > b {
            Err(PointError::Descending)
        } else {
            Ok(Some((a, b)))
        }
    }

    /// The ranges that a comma-separated list names; see [`ranges_from`].
    pub fn ranges_of(text: &Vec<char>) -> (r: Result<Vec<(u16, u16)>, PointError>)
        ensures
            match r {
                Ok(ranges) => ranges_from(text@, 0, 0, Seq::empty()) == Ok::<
                    Seq<(u16, u16)>,
                    PointError,
                >(ranges@),
                Err(e) => ranges_from(text@, 0, 0, Seq::empty()) == Err::<
                    Seq<(u16, u16)>,
                    PointError,
                >(e),
            },
    {
        let n = text.len();
        let mut ranges: Vec<(u16, u16)> = Vec::new();
        let mut start: usize = 0;
        let mut pos: usize = 0;
        while pos < n
            invariant
                n == text@.len(),
                start <= pos <= n,
                ranges_from(text@, 0, 0, Seq::empty()) == ranges_from(
                    text@,
                    start as int,
                    pos as int,
                    ranges@,
                ),
            decreases n - pos,
        {
            if text[pos] == ',' {
                match Self::range_from(&sub_chars(text, start, pos)) {
                    Ok(Some(r)) => {
                        ranges.push(r);
                    },
                    Ok(None) => {},
                    Err(e) => {
                        return Err(e);
                    },
                }
                start = pos + 1;
            }
            pos += 1;
        }
        match Self::range_from(&sub_chars(text, start, n)) {
            Ok(Some(r)) => {
                ranges.push(r);
                Ok(ranges)
            },
            Ok(None) => Ok(ranges),
            Err(e) => Err(e),
        }
    }

    /// The points that the ranges hold, each once, in ascending order.
    pub fn points_of(ranges: &Vec<(u16, u16)>) -> (points: Vec<u16>)
        ensures
            points@ == ascending_points(ranges@, 65536),
    {
        let mut present: Vec<bool> = Vec::new();
        let mut v: usize = 0;
        while v < 65536
            invariant
                v <= 65536,
                present@.len() == v,
                forall|p: int| 0 <= p < v ==> !present@[p],
            decreases 65536 - v,
        {
            present.push(false);
            v += 1;
        }
        let mut i: usize = 0;
        while i < ranges.len()
            invariant
                i <= ranges.len(),
                present@.len() == 65536,
                forall|p: int| 0 <= p < 65536 ==> present@[p] == covered(ranges@, i as int, p),
            decreases ranges.len() - i,
        {
            let first = ranges[i].0 as usize;
            let last = ranges[i].1 as usize;
            let mut p: usize = first;
            while p <= last
                invariant
                    i < ranges.len(),
                    first == ranges@[i as int].0,
                    last == ranges@[i as int].1,
                    first <= p,
                    p <= last + 1 || first > last,
                    present@.len() == 65536,
                    forall|q: int|
                        0 <= q < 65536 ==> present@[q] == (covered(ranges@, i as int, q) || (first
                            <= q < p && q <= last)),
                decreases last + 1 - p,
            {
                present.set(p, true);
                p += 1;
            }
            i += 1;
        }
        let mut points: Vec<u16> = Vec::new();
        let mut w: usize = 0;
        while w < 65536
            invariant
                w <= 65536,
                present@.len() == 65536,
                forall|p: int|
                    0 <= p < 65536 ==> present@[p] == covered(ranges@, ranges@.len() as int, p),
                points@ == ascending_points(ranges@, w as int),
            decreases 65536 - w,
        {
            if present[w] {
                points.push(w as u16);
            }
            w += 1;
        }
        points
    }

    /// The selectors, as text, of the points that a list names; see
    /// [`points_to_selectors`].
    pub fn try_convert_point_to_da(input: &str, continuous: bool) -> (r: Result<String, PointError>)
        ensures
            match r {
                Ok(text) => points_to_selectors(input@, continuous) == Ok::<Seq<char>, PointError>(
                    text@,
                ),
                Err(e) => points_to_selectors(input@, continuous) == Err::<Seq<char>, PointError>(e),
            },
    {
        let ranges = match Self::ranges_of(&chars_of(input)) {
            Ok(r) => r,
            Err(e) => {
                return Err(e);
            },
        };
        let points = Self::points_of(&ranges);
        if points.len() == 0 {
            return Err(PointError::NoPoints);
        }
        let selectors = if continuous {
            Self::to_da_with_continuous(points.as_slice())
        } else {
            Self::to_da_with_single(points.as_slice())
        };
        match selectors {
            Some(s) => Ok(Self::selectors_as_text(&s)),
            None => Err(PointError::OutOfRange),
        }
    }
}

/// Once a point has no selector, no longer list has selectors.
pub proof fn lemma_single_none(points: Seq<u16>, k: int, n: int)
    requires
        single_selectors(points, k) is None,
        k <= n <= points.len(),
    ensures
        single_selectors(points, n) is None,
    decreases n - k,
{
    if k < n {
        lemma_single_none(points, k, n - 1);
    }
}

/// Once a point has no selector, no longer list has merged selectors.
pub proof fn lemma_merged_none(points: Seq<u16>, k: int, n: int)
    requires
        merged_selectors(points, k) is None,
        k <= n <= points.len(),
    ensures
        merged_selectors(points, n) is None,
    decreases n - k,
{
    if k < n {
        lemma_merged_none(points, k, n - 1);
    }
}

/// Why selectors could not be turned into a list of points.
#[derive(Debug, Clone, Copy, PartialEq, Eq, Structural)]
pub enum SelectorError {
    /// Nothing was given.
    NoInput,
    /// A selector holds a character that is no hexadecimal digit.
    NotHex,
    /// A selector is no whole number of byte pairs.
    OddLength,
    /// A selector names a group 0 with points in it.
    BadSelector,
    /// The text holds no selector.
    Empty,
}

/// `s` without the prefix `0x`, as often as it stands at the start.
pub open spec fn without_prefix(s: Seq<char>) -> Seq<char>
    decreases s.len(),
{
    if s.len() >= 2 && s[0] == '0' && s[1] == 'x' {
        without_prefix(s.skip(2))
    } else {
        s
    }
}

/// Numbers in decimal joined by commas.
pub open spec fn comma_numbers(points: Seq<u16>) -> Seq<char>
    decreases points.len(),
{
    if points.len() == 0 {
        Seq::empty()
    } else if points.len() == 1 {
        decimal_text(points[0] as nat)
    } else {
        comma_numbers(points.drop_last()) + seq![','] + decimal_text(points.last() as nat)
    }
}

/// The points of one selector as text: `0xFFFF` for every point, else the
/// numbers of the points.
pub open spec fn pair_text(da1: u8, da2: u8) -> Result<Seq<char>, SelectorError> {
    match measurement_points(seq![da1, da2]) {
        Err(_) => Err(SelectorError::BadSelector),
        Ok(points) => if points.len() == 1 && points[0] == 0xFFFF {
            Ok("0xFFFF"@)
        } else {
            Ok(comma_numbers(points))
        },
    }
}

/// The texts of the first `n` selectors that bytes write, two bytes each,
/// behind the texts `texts`.
pub open spec fn pair_texts(bytes: Seq<u8>, n: int, texts: Seq<Seq<char>>) -> Result<
    Seq<Seq<char>>,
    SelectorError,
>
    decreases n,
{
    if n <= 0 || 2 * n > bytes.len() {
        Ok(texts)
    } else {
        match pair_texts(bytes, n - 1, texts) {
            Err(e) => Err(e),
            Ok(more) => match pair_text(bytes[2 * n - 2], bytes[2 * n - 1]) {
                Ok(t) => Ok(more.push(t)),
                Err(e) => Err(e),
            },
        }
    }
}

/// The texts with those of the selectors that one entry writes: the entry
/// without the white space at its ends, without the prefix `0x` and without
/// blanks is hexadecimal digits, four for each selector. An entry of white
/// space alone writes nothing.
pub open spec fn with_selector_entry(texts: Seq<Seq<char>>, entry: Seq<char>) -> Result<
    Seq<Seq<char>>,
    SelectorError,
> {
    let t = crate::text::trimmed(entry);
    let digits = crate::text::without_blanks(without_prefix(t));
    if t.len() == 0 {
        Ok(texts)
    } else if !crate::text::all_hex(digits) {
        Err(SelectorError::NotHex)
    } else if digits.len() % 4 != 0 {
        Err(SelectorError::OddLength)
    } else {
        pair_texts(crate::text::hex_bytes(digits), digits.len() as int / 4, texts)
    }
}

/// The texts of the selectors that a comma-separated list writes, read from
/// the entry that starts at `start` and is read up to `pos`.
pub open spec fn selector_texts_from(text: Seq<char>, start: int, pos: int, texts: Seq<Seq<char>>) -> Result<
    Seq<Seq<char>>,
    SelectorError,
>
    decreases text.len() - pos,
{
    if pos < 0 || start < 0 || start > pos || pos > text.len() {
        Ok(texts)
    } else if pos == text.len() {
        with_selector_entry(texts, text.subrange(start, pos))
    } else if text[pos] == ',' {
        match with_selector_entry(texts, text.subrange(start, pos)) {
            Ok(more) => selector_texts_from(text, pos + 1, pos + 1, more),
            Err(e) => Err(e),
        }
    } else {
        selector_texts_from(text, start, pos + 1, texts)
    }
}

/// Texts joined by commas.
pub open spec fn comma_joined(texts: Seq<Seq<char>>) -> Seq<char>
    decreases texts.len(),
{
    if texts.len() == 0 {
        Seq::empty()
    } else if texts.len() == 1 {
        texts[0]
    } else {
        comma_joined(texts.drop_last()) + seq![','] + texts.last()
    }
}

/// Whether a text holds a comma.
pub open spec fn has_comma(text: Seq<char>) -> bool {
    exists|i: int| 0 <= i < text.len() && text[i] == ','
}

/// The points, as text, that a list of selectors names; each selector is
/// four hexadecimal digits, and selectors are separated by commas or follow
/// each other directly.
pub open spec fn selectors_to_points(text: Seq<char>) -> Result<Seq<char>, SelectorError> {
    if !has_comma(text) && crate::text::trimmed(text).len() == 0 {
        Err(SelectorError::NoInput)
    } else {
        match selector_texts_from(text, 0, 0, Seq::empty()) {
            Err(e) => Err(e),
            Ok(texts) => if texts.len() == 0 {
                Err(SelectorError::Empty)
            } else {
                Ok(comma_joined(texts))
            },
        }
    }
}

/// The views of a list of strings.
pub open spec fn text_views(texts: Seq<String>) -> Seq<Seq<char>> {
    Seq::new(texts.len(), |i: int| texts[i]@)
}

/// Why an exchange between points and selectors failed.
#[derive(Debug, Clone, Copy, PartialEq, Eq, Structural)]
pub enum ExchangeError {
    /// Neither `point_to_da` nor `da_to_point` was asked for.
    BadKind,
    /// The list of points is not in order.
    Points(PointError),
    /// The list of selectors is not in order.
    Selectors(SelectorError),
}

/// What an exchange gives: with `point_to_da` the selectors of the points
/// that the input names, with `da_to_point` the points of the selectors
/// that it writes; white space at the ends of the input is set aside.
pub open spec fn exchanged(input: Seq<char>, convert_type: Seq<char>, continuous: bool) -> Result<
    Seq<char>,
    ExchangeError,
> {
    let cleaned = crate::text::trimmed(input);
    if convert_type == "point_to_da"@ {
        match points_to_selectors(cleaned, continuous) {
            Ok(t) => Ok(t),
            Err(e) => Err(ExchangeError::Points(e)),
        }
    } else if convert_type == "da_to_point"@ {
        match selectors_to_points(cleaned) {
            Ok(t) => Ok(t),
            Err(e) => Err(ExchangeError::Selectors(e)),
        }
    } else {
        Err(ExchangeError::BadKind)
    }
}

impl FrameCsg {
    /// The characters without the prefix `0x`, as often as it stands at the
    /// start.
    pub fn chars_without_prefix(s: &Vec<char>) -> (r: Vec<char>)
        ensures
            r@ == without_prefix(s@),
    {
        let n = s.len();
        let mut from: usize = 0;
        assert(s@.skip(0) =~= s@);
        while n - from >= 2 && s[from] == '0' && s[from + 1] == 'x'
            invariant
                from <= n,
                n == s@.len(),
                without_prefix(s@) == without_prefix(s@.skip(from as int)),
            decreases n - from,
        {
            proof {
                assert(s@.skip(from as int).skip(2) =~= s@.skip(from + 2));
            }
            from += 2;
        }
        let r = sub_chars(s, from, n);
        assert(r@ =~= s@.skip(from as int));
        r
    }

    /// The points of one selector as text; see [`pair_text`].
    pub fn pair_as_text(da1: u8, da2: u8) -> (r: Result<String, SelectorError>)
        ensures
            match r {
                Ok(t) => pair_text(da1, da2) == Ok::<Seq<char>, SelectorError>(t@),
                Err(e) => pair_text(da1, da2) == Err::<Seq<char>, SelectorError>(e),
            },
    {
        let mut da: Vec<u8> = Vec::new();
        da.push(da1);
        da.push(da2);
        assert(da@ =~= seq![da1, da2]);
        let (size, points) = match FrameFun::calculate_measurement_points(da.as_slice()) {
            Ok(found) => found,
            Err(_) => {
                return Err(SelectorError::BadSelector);
            },
        };
        if size == 1 && points[0] == 0xFFFF {
            return Ok(String::from_str("0xFFFF"));
        }
        let mut text = String::new();
        let mut i: usize = 0;
        assert(text@ =~= comma_numbers(points@.take(0)));
        while i < points.len()
            invariant
                i <= points.len(),
                text@ == comma_numbers(points@.take(i as int)),
            decreases points.len() - i,
        {
            if i > 0 {
                text.push(',');
            }
            push_decimal(&mut text, points[i] as u64);
            proof {
                let next = points@.take(i + 1);
                assert(next.drop_last() =~= points@.take(i as int));
                assert(next.last() == points@[i as int]);
                if i == 0 {
                    assert(next[0] == points@[0]);
                }
                assert(text@ =~= comma_numbers(next));
            }
            i += 1;
        }
        assert(points@.take(i as int) =~= points@);
        Ok(text)
    }

    /// Appends the texts of the selectors that one entry writes; see
    /// [`with_selector_entry`].
    #[verifier::loop_isolation(false)]
    pub fn push_selector_entry(texts: &mut Vec<String>, entry: &Vec<char>) -> (r: Result<
        (),
        SelectorError,
    >)
        ensures
            match r {
                Ok(_) => with_selector_entry(text_views(old(texts)@), entry@) == Ok::<
                    Seq<Seq<char>>,
                    SelectorError,
                >(text_views(final(texts)@)),
                Err(e) => with_selector_entry(text_views(old(texts)@), entry@) == Err::<
                    Seq<Seq<char>>,
                    SelectorError,
                >(e),
            },
    {
        let t = crate::text::trimmed_chars(entry);
        if t.len() == 0 {
            return Ok(());
        }
        let digits = crate::text::chars_without_blanks(&Self::chars_without_prefix(&t));
        let mut k: usize = 0;
        while k < digits.len()
            invariant
                k <= digits.len(),
                forall|j: int| 0 <= j < k ==> (#[trigger] crate::text::hex_value(digits@[j])) is Some,
            decreases digits.len() - k,
        {
            if crate::text::hex_value_of(digits[k]).is_none() {
                assert(crate::text::hex_value(digits@[k as int]) is None);
                return Err(SelectorError::NotHex);
            }
            k += 1;
        }
        if digits.len() % 4 != 0 {
            return Err(SelectorError::OddLength);
        }
        let bytes = match FrameFun::hex_bytes_of(&digits) {
            Ok(b) => b,
            Err(_) => {
                return Err(SelectorError::OddLength);
            },
        };
        let count = digits.len() / 4;
        let ghost start = text_views(texts@);
        let mut n: usize = 0;
        while n < count
            invariant
                n <= count,
                bytes@.len() == 2 * count,
                pair_texts(bytes@, n as int, start) == Ok::<Seq<Seq<char>>, SelectorError>(
                    text_views(texts@),
                ),
            decreases count - n,
        {
            match Self::pair_as_text(bytes[2 * n], bytes[2 * n + 1]) {
                Ok(t) => {
                    let ghost before = text_views(texts@);
                    texts.push(t);
                    assert(text_views(texts@) =~= before.push(t@));
                },
                Err(e) => {
                    proof {
                        lemma_pair_texts_error(bytes@, n + 1, count as int, start);
                    }
                    return Err(e);
                },
            }
            n += 1;
        }
        Ok(())
    }

    /// The points, as text, that a list of selectors names; see
    /// [`selectors_to_points`].
    #[verifier::loop_isolation(false)]
    pub fn try_convert_da_to_point(input: &str) -> (r: Result<String, SelectorError>)
        ensures
            match r {
                Ok(text) => selectors_to_points(input@) == Ok::<Seq<char>, SelectorError>(text@),
                Err(e) => selectors_to_points(input@) == Err::<Seq<char>, SelectorError>(e),
            },
    {
        let text = chars_of(input);
        let n = text.len();
        let mut commas = false;
        let mut c: usize = 0;
        while c < n
            invariant
                c <= n,
                n == text@.len(),
                commas == (exists|i: int| 0 <= i < c && text@[i] == ','),
            decreases n - c,
        {
            if text[c] == ',' {
                commas = true;
            }
            c += 1;
        }
        if !commas && crate::text::trimmed_chars(&text).len() == 0 {
            return Err(SelectorError::NoInput);
        }
        let mut texts: Vec<String> = Vec::new();
        assert(text_views(texts@) =~= Seq::<Seq<char>>::empty());
        let mut start: usize = 0;
        let mut pos: usize = 0;
        while pos < n
            invariant
                n == text@.len(),
                start <= pos <= n,
                selector_texts_from(text@, 0, 0, Seq::empty()) == selector_texts_from(
                    text@,
                    start as int,
                    pos as int,
                    text_views(texts@),
                ),
            decreases n - pos,
        {
            if text[pos] == ',' {
                match Self::push_selector_entry(&mut texts, &sub_chars(&text, start, pos)) {
                    Ok(_) => {},
                    Err(e) => {
                        return Err(e);
                    },
                }
                start = pos + 1;
            }
            pos += 1;
        }
        match Self::push_selector_entry(&mut texts, &sub_chars(&text, start, n)) {
            Ok(_) => {},
            Err(e) => {
                return Err(e);
            },
        }
        if texts.len() == 0 {
            return Err(SelectorError::Empty);
        }
        let ghost views = text_views(texts@);
        let mut out = String::new();
        let mut i: usize = 0;
        assert(out@ =~= comma_joined(views.take(0)));
        while i < texts.len()
            invariant
                i <= texts.len(),
                views == text_views(texts@),
                out@ == comma_joined(views.take(i as int)),
            decreases texts.len() - i,
        {
            if i > 0 {
                out.push(',');
            }
            out.append(texts[i].as_str());
            proof {
                let next = views.take(i + 1);
                assert(next.drop_last() =~= views.take(i as int));
                assert(next.last() == texts@[i as int]@);
                if i == 0 {
                    assert(next[0] == views[0]);
                }
                assert(out@ =~= comma_joined(next));
            }
            i += 1;
        }
        assert(views.take(i as int) =~= views);
        Ok(out)
    }

    /// An exchange between points and selectors; see [`exchanged`].
    pub fn da_and_measure_point_exchange(input: &str, convert_type: &str, continuous: bool) -> (r:
        Result<String, ExchangeError>)
        ensures
            match r {
                Ok(text) => exchanged(input@, convert_type@, continuous) == Ok::<
                    Seq<char>,
                    ExchangeError,
                >(text@),
                Err(e) => exchanged(input@, convert_type@, continuous) == Err::<
                    Seq<char>,
                    ExchangeError,
                >(e),
            },
    {
        let cleaned = crate::text::string_of(&crate::text::trimmed_chars(&chars_of(input)));
        if crate::text::same_text(convert_type, "point_to_da") {
            match Self::try_convert_point_to_da(cleaned.as_str(), continuous) {
                Ok(t) => Ok(t),
                Err(e) => Err(ExchangeError::Points(e)),
            }
        } else if crate::text::same_text(convert_type, "da_to_point") {
            match Self::try_convert_da_to_point(cleaned.as_str()) {
                Ok(t) => Ok(t),
                Err(e) => Err(ExchangeError::Selectors(e)),
            }
        } else {
            Err(ExchangeError::BadKind)
        }
    }
}

/// Once a selector is refused, no longer list of selectors has texts.
pub proof fn lemma_pair_texts_error(bytes: Seq<u8>, k: int, n: int, texts: Seq<Seq<char>>)
    requires
        pair_texts(bytes, k, texts) is Err,
        0 < k <= n,
        2 * n <= bytes.len(),
    ensures
        pair_texts(bytes, n, texts) == pair_texts(bytes, k, texts),
    decreases n - k,
{
    if k < n {
        lemma_pair_texts_error(bytes, k, n - 1, texts);
    }
}

} // verus!
