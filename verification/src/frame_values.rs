//! Decoded values as text: decimal numbers with a point, addresses, ports,
//! times, measurement points.

use crate::error::DecodeError;
use crate::frame_fun::{
    bcd_digits, be_value, is_bcd, le_value, pow2_u8, sign_bit, strip_bias, with_point,
    without_sign_bit, FrameFun,
};
use crate::text::{
    bits_text, chars_of, decimal_text, hex_pair, pad_left, push_chars, push_decimal, push_hex_pair,
    push_repeated, repeated,
};
use vstd::prelude::*;

verus! {

/// What `String::from_utf8_lossy` makes of the bytes: their text as UTF-8,
/// each invalid sequence replaced as the standard library documents.
pub uninterp spec fn utf8_lossy_text(bytes: Seq<u8>) -> Seq<char>;

/// `String::from_utf8_lossy` of the standard library, its result owned. The
/// text depends on the bytes alone.
#[verifier::external_body]
pub(crate) fn lossy_text(bytes: &[u8]) -> (text: String)
    ensures
        text@ == utf8_lossy_text(bytes@),
{
    String::from_utf8_lossy(bytes).into_owned()
}

/// Whether every byte is `0xFF`; true of no bytes at all.
pub open spec fn all_ff(s: Seq<u8>) -> bool {
    forall|i: int| 0 <= i < s.len() ==> s[i] == 0xFF
}

/// The bytes as they are decoded: without the bias where asked.
pub open spec fn plain_bytes(bytes: Seq<u8>, need_delete: bool) -> Seq<u8> {
    if need_delete {
        strip_bias(bytes)
    } else {
        bytes
    }
}

/// A sign in front of the text of a negative value.
pub open spec fn signed_text(negative: bool, body: Seq<char>) -> Seq<char> {
    if negative {
        seq!['-'] + body
    } else {
        body
    }
}

/// The text of a packed BCD number, least significant byte first, with
/// `places` digits behind the point. Every digit of the bytes is printed, so
/// the text holds two digits per byte, and one character more for the point
/// where `places` is not 0. With `check`, bytes that are all `0xFF` stand for
/// an invalid value. With `sign`, the top bit of the last byte is the sign. A
/// nibble above nine is no digit.
pub open spec fn bcd_decode_text(
    bytes: Seq<u8>,
    places: nat,
    need_delete: bool,
    sign: bool,
    check: bool,
) -> Result<Seq<char>, DecodeError> {
    if check && all_ff(bytes) {
        Ok("无效数据"@)
    } else {
        let plain = plain_bytes(bytes, need_delete);
        let negative = sign && sign_bit(plain);
        let magnitude = if negative {
            without_sign_bit(plain)
        } else {
            plain
        };
        if !is_bcd(magnitude) {
            Err(DecodeError::InvalidDigit)
        } else {
            Ok(signed_text(negative, with_point(bcd_digits(magnitude), places)))
        }
    }
}

/// The text of a packed BCD number in which bytes that are all `0xFF` stand
/// for an invalid value; see [`bcd_decode_text`].
pub open spec fn bcd_decimal_text(
    bytes: Seq<u8>,
    places: nat,
    need_delete: bool,
    sign: bool,
) -> Result<Seq<char>, DecodeError> {
    bcd_decode_text(bytes, places, need_delete, sign, true)
}

/// The text of a binary number, least significant byte first, with `places`
/// digits behind the point, filled with zeros on the left to two characters
/// per byte (and one for the point). With `judge_ff`, bytes that are all
/// `0xFF` stand for an invalid value. With `sign`, the top bit of the last
/// byte is the sign.
pub open spec fn bin_decimal_text(
    bytes: Seq<u8>,
    places: nat,
    need_delete: bool,
    sign: bool,
    judge_ff: bool,
) -> Result<Seq<char>, DecodeError> {
    if judge_ff && all_ff(bytes) {
        Ok("无效数据"@)
    } else if bytes.len() == 0 {
        Err(DecodeError::Empty)
    } else {
        let plain = plain_bytes(bytes, need_delete);
        let negative = sign && sign_bit(plain);
        let magnitude = if negative {
            without_sign_bit(plain)
        } else {
            plain
        };
        if le_value(magnitude) > u64::MAX {
            Err(DecodeError::OutOfRange)
        } else {
            let width = if places != 0 {
                2 * bytes.len() + 1
            } else {
                2 * bytes.len()
            };
            Ok(
                signed_text(
                    negative,
                    pad_left(
                        with_point(decimal_text(le_value(magnitude)), places),
                        width as nat,
                        '0',
                    ),
                ),
            )
        }
    }
}

/// Four bytes as a dotted address, the last byte first.
pub open spec fn ip_text(ip: Seq<u8>) -> Seq<char>
    recommends
        ip.len() >= 4,
{
    decimal_text(ip[3] as nat) + seq!['.'] + decimal_text(ip[2] as nat) + seq!['.'] + decimal_text(
        ip[1] as nat,
    ) + seq!['.'] + decimal_text(ip[0] as nat)
}

/// `value` without its lowest `n` bits.
pub open spec fn shifted_right(value: nat, n: nat) -> nat
    decreases n,
{
    if n == 0 {
        value
    } else {
        shifted_right(value / 2, (n - 1) as nat)
    }
}

/// The text of a freeze time of four bytes: `0x99` in a leading position
/// stands for "every".
pub open spec fn freeze_time_text(d: Seq<u8>) -> Seq<char> {
    if d.len() == 4 && d[0] == 0x99 && d[1] == 0x99 && d[2] == 0x99 && d[3] == 0x99 {
        "瞬时冻结"@
    } else if d.len() == 4 && d[0] == 0x99 && d[1] == 0x99 && d[2] == 0x99 {
        "每时"@ + hex_pair(d[3]) + "分"@
    } else if d.len() == 4 && d[0] == 0x99 && d[1] == 0x99 {
        "每日"@ + hex_pair(d[2]) + "时"@ + hex_pair(d[3]) + "分"@
    } else if d.len() == 4 && d[0] == 0x99 {
        "每月"@ + hex_pair(d[1]) + "日"@ + hex_pair(d[2]) + "时"@ + hex_pair(d[3]) + "分"@
    } else {
        "未知冻结类型"@
    }
}

/// The index of the first byte equal to `b`, or the length where none is.
pub open spec fn position_of(s: Seq<u8>, b: u8) -> nat
    decreases s.len(),
{
    if s.len() == 0 || s[0] == b {
        0
    } else {
        1 + position_of(s.drop_first(), b)
    }
}

/// The point numbers that the low `n` bits of `da1` select in group `da2`:
/// bit `i` stands for point `(da2 - 1) * 8 + i + 1`.
pub open spec fn points_upto(da1: u8, da2: u8, n: int) -> Seq<u16>
    decreases n,
{
    if n <= 0 {
        Seq::empty()
    } else {
        let rest = points_upto(da1, da2, n - 1);
        if (da1 / pow2_u8(n - 1)) % 2 == 1 {
            rest.push(((da2 - 1) * 8 + n) as u16)
        } else {
            rest
        }
    }
}

/// The measurement points that a two-byte selector names. `FF FF` stands for
/// every point (`0xFFFF`), `00 00` for the terminal itself (`0`); otherwise
/// the second byte is a group from 1 on and the bits of the first byte select
/// points within it.
pub open spec fn measurement_points(da: Seq<u8>) -> Result<Seq<u16>, DecodeError> {
    if da.len() < 2 {
        Err(DecodeError::TooShort)
    } else if da[0] == 0xFF && da[1] == 0xFF {
        Ok(seq![0xFFFFu16])
    } else if da[0] == 0 && da[1] == 0 {
        Ok(seq![0u16])
    } else if da[1] == 0 {
        Err(DecodeError::OutOfRange)
    } else {
        Ok(points_upto(da[0], da[1], 8))
    }
}

/// Numbers in decimal joined by a comma and a space.
pub open spec fn joined_numbers(points: Seq<u16>) -> Seq<char>
    decreases points.len(),
{
    if points.len() == 0 {
        Seq::empty()
    } else if points.len() == 1 {
        decimal_text(points[0] as nat)
    } else {
        joined_numbers(points.drop_last()) + ", "@ + decimal_text(points.last() as nat)
    }
}

/// The text of a measurement point selector.
pub open spec fn da_text(da: Seq<u8>) -> Seq<char> {
    match measurement_points(da) {
        Err(_) => "Pn解析失败"@,
        Ok(points) => {
            if points.len() == 0 {
                "Pn解析失败"@
            } else if points.len() == 1 && points[0] == 0 {
                "Pn=测量点：0(终端)"@
            } else if points.len() == 1 && points[0] == 0xFFFF {
                "Pn=测量点：FFFF(除了终端信息点以外的所有测量点)"@
            } else {
                "Pn=第"@ + joined_numbers(points) + "测量点"@
            }
        },
    }
}

/// Whether `a` stands at place `j` of `s`, directly before `b`.
pub open spec fn pair_at(s: Seq<char>, a: char, b: char, j: int) -> bool {
    0 <= j && j + 1 < s.len() && s[j] == a && s[j + 1] == b
}

/// The index of the first place at or after `from` where `a` stands directly
/// before `b`.
pub open spec fn find_pair(s: Seq<char>, a: char, b: char, from: int) -> Option<int>
    decreases s.len() - from,
{
    if from < 0 || from + 1 >= s.len() {
        None
    } else if pair_at(s, a, b, from) {
        Some(from)
    } else {
        find_pair(s, a, b, from + 1)
    }
}

/// The name of a weekday, 0 standing for Sunday.
pub open spec fn weekday_text(v: u8) -> Seq<char> {
    if v == 0 {
        "天"@
    } else if v == 1 {
        "一"@
    } else if v == 2 {
        "二"@
    } else if v == 3 {
        "三"@
    } else if v == 4 {
        "四"@
    } else if v == 5 {
        "五"@
    } else if v == 6 {
        "六"@
    } else {
        "未知"@
    }
}

/// The letter of the `k`-th part of a time, in the order century, year,
/// month, day, weekday, hour, minute, second. A layout names a part by the
/// letter twice.
pub open spec fn time_letter(k: int) -> char {
    if k == 0 {
        'C'
    } else if k == 1 {
        'Y'
    } else if k == 2 {
        'M'
    } else if k == 3 {
        'D'
    } else if k == 4 {
        'W'
    } else if k == 5 {
        'h'
    } else if k == 6 {
        'm'
    } else {
        's'
    }
}

/// What follows the two digits of the `k`-th part of a time.
pub open spec fn time_suffix(k: int) -> Seq<char> {
    if k == 1 {
        "年"@
    } else if k == 2 {
        "月"@
    } else if k == 3 {
        "日"@
    } else if k == 5 {
        "时"@
    } else if k == 6 {
        "分"@
    } else if k == 7 {
        "秒"@
    } else {
        Seq::empty()
    }
}

/// The text of the `k`-th part of a time: nothing where the layout does not
/// name it; `None` where the layout names a byte that the data lacks. The
/// part named at character `i` of the layout is byte `i / 2` of the data.
pub open spec fn time_part(data: Seq<u8>, layout: Seq<char>, k: int) -> Option<Seq<char>> {
    match find_pair(layout, time_letter(k), time_letter(k), 0) {
        None => Some(Seq::empty()),
        Some(i) => {
            if i / 2 >= data.len() {
                None
            } else if k == 4 {
                Some(weekday_text(data[i / 2]))
            } else {
                Some(hex_pair(data[i / 2]) + time_suffix(k))
            }
        },
    }
}

/// The text of the first `n` parts of a time, or `None` where one of them
/// names a byte that the data lacks.
pub open spec fn time_text(data: Seq<u8>, layout: Seq<char>, n: int) -> Option<Seq<char>>
    decreases n,
{
    if n <= 0 {
        Some(Seq::empty())
    } else {
        match (time_text(data, layout, n - 1), time_part(data, layout, n - 1)) {
            (Some(a), Some(b)) => Some(a + b),
            _ => None,
        }
    }
}

pub proof fn lemma_position_of(s: Seq<u8>, b: u8)
    ensures
        position_of(s, b) <= s.len(),
        forall|i: int| 0 <= i < position_of(s, b) ==> #[trigger] s[i] != b,
        position_of(s, b) < s.len() ==> s[position_of(s, b) as int] == b,
    decreases s.len(),
{
    if s.len() != 0 && s[0] != b {
        let t = s.drop_first();
        lemma_position_of(t, b);
        assert forall|i: int| 0 <= i < position_of(s, b) implies #[trigger] s[i] != b by {
            if i > 0 {
                assert(s[i] == t[i - 1]);
            }
        }
        if position_of(s, b) < s.len() {
            assert(s[position_of(s, b) as int] == t[position_of(t, b) as int]);
        }
    }
}

/// A search that starts later finds the same pair as one that starts at a
/// place before which no pair stands.
pub proof fn lemma_find_pair_skip(s: Seq<char>, a: char, b: char, from: int, to: int)
    requires
        0 <= from <= to,
        forall|j: int| from <= j < to ==> !#[trigger] pair_at(s, a, b, j),
    ensures
        find_pair(s, a, b, from) == find_pair(s, a, b, to),
    decreases to - from,
{
    if from < to {
        lemma_find_pair_skip(s, a, b, from + 1, to);
        if from + 1 >= s.len() {
            assert(find_pair(s, a, b, to) is None);
        }
    }
}

/// Once a part of a time names a missing byte, no longer text exists.
pub proof fn lemma_time_text_none(data: Seq<u8>, layout: Seq<char>, k: int, n: int)
    requires
        time_text(data, layout, k) is None,
        k <= n,
    ensures
        time_text(data, layout, n) is None,
    decreases n - k,
{
    if k < n {
        lemma_time_text_none(data, layout, k, n - 1);
    }
}

impl FrameFun {
    /// Appends `digits` with a decimal point before the last `places` of them.
    pub fn push_with_point(out: &mut String, digits: &Vec<char>, places: usize)
        ensures
            final(out)@ == old(out)@ + with_point(digits@, places as nat),
    {
        let n = digits.len();
        if places == 0 {
            push_chars(out, digits);
        } else if n > places {
            let mut i: usize = 0;
            let split = n - places;
            while i < n
                invariant
                    n == digits@.len(),
                    split == n - places,
                    0 < places < n,
                    i <= n,
                    out@ == old(out)@ + (if i <= split {
                        digits@.subrange(0, i as int)
                    } else {
                        digits@.subrange(0, split as int) + seq!['.'] + digits@.subrange(
                            split as int,
                            i as int,
                        )
                    }),
                decreases n - i,
            {
                if i == split {
                    out.push('.');
                }
                out.push(digits[i]);
                proof {
                    let next = digits@.subrange(0, split as int) + seq!['.'] + digits@.subrange(
                        split as int,
                        i + 1,
                    );
                    if i < split {
                        assert(out@ =~= old(out)@ + digits@.subrange(0, i + 1));
                    } else {
                        assert(out@ =~= old(out)@ + next);
                    }
                }
                i += 1;
            }
            proof {
                assert(pad_left(digits@, (places + 1) as nat, '0') == digits@);
            }
        } else {
            out.push('0');
            out.push('.');
            push_repeated(out, '0', places - n);
            push_chars(out, digits);
            proof {
                let full = pad_left(digits@, (places + 1) as nat, '0');
                assert(full =~= repeated('0', (places + 1 - n) as nat) + digits@);
                assert(full.len() == places + 1);
                assert(full.subrange(0, 1) =~= seq!['0']);
                assert(full.subrange(1, full.len() as int) =~= repeated('0', (places - n) as nat)
                    + digits@);
                assert(out@ =~= old(out)@ + with_point(digits@, places as nat));
            }
        }
    }

    /// `bytes` without the sign of a signed value: whether the top bit of the
    /// last byte was set, and the bytes with that bit cleared.
    pub fn split_sign(bytes: Vec<u8>, sign: bool) -> (r: (bool, Vec<u8>))
        ensures
            r.0 == (sign && sign_bit(bytes@)),
            r.1@ == (if r.0 {
                without_sign_bit(bytes@)
            } else {
                bytes@
            }),
    {
        let n = bytes.len();
        if sign && n > 0 && bytes[n - 1] >= 128 {
            let mut magnitude = bytes;
            let last = magnitude[n - 1];
            magnitude.set(n - 1, last % 128);
            (true, magnitude)
        } else {
            (false, bytes)
        }
    }

    /// Whether both nibbles of every byte are decimal digits.
    pub fn all_bcd(bytes: &[u8]) -> (r: bool)
        ensures
            r == is_bcd(bytes@),
    {
        let mut i: usize = 0;
        while i < bytes.len()
            invariant
                i <= bytes.len(),
                forall|j: int| 0 <= j < i ==> (#[trigger] bytes@[j]) / 16 < 10 && bytes@[j] % 16 < 10,
            decreases bytes.len() - i,
        {
            if bytes[i] / 16 >= 10 || bytes[i] % 16 >= 10 {
                return false;
            }
            i += 1;
        }
        true
    }

    /// The text of a packed BCD number with `decimal_places` digits behind the
    /// point, without the bias where `strip_bias` says so, with a sign bit
    /// where `signed` says so, and with all `0xFF` taken as invalid where
    /// `treat_all_ff_as_invalid` says so; see [`bcd_decode_text`].
    pub fn bcd_decode(
        bytes: &[u8],
        decimal_places: usize,
        strip_bias: bool,
        signed: bool,
        treat_all_ff_as_invalid: bool,
    ) -> (r: Result<String, DecodeError>)
        ensures
            match r {
                Ok(text) => bcd_decode_text(
                    bytes@,
                    decimal_places as nat,
                    strip_bias,
                    signed,
                    treat_all_ff_as_invalid,
                ) == Ok::<Seq<char>, DecodeError>(text@),
                Err(e) => bcd_decode_text(
                    bytes@,
                    decimal_places as nat,
                    strip_bias,
                    signed,
                    treat_all_ff_as_invalid,
                ) == Err::<Seq<char>, DecodeError>(e),
            },
    {
        if treat_all_ff_as_invalid && Self::is_array_all_ffs(bytes) {
            return Ok(String::from_str("无效数据"));
        }
        let plain = if strip_bias {
            Self::frame_delete_33h(bytes)
        } else {
            Self::copy_bytes(bytes)
        };
        let (negative, magnitude) = Self::split_sign(plain, signed);
        if !Self::all_bcd(magnitude.as_slice()) {
            return Err(DecodeError::InvalidDigit);
        }
        let digit_text = Self::get_data_str_reverser(magnitude.as_slice());
        let digits = chars_of(digit_text.as_str());
        let mut out = String::new();
        if negative {
            out.push('-');
        }
        Self::push_with_point(&mut out, &digits, decimal_places);
        proof {
            let body = with_point(bcd_digits(magnitude@), decimal_places as nat);
            assert(out@ =~= signed_text(negative, body));
        }
        Ok(out)
    }

    /// The text of a packed BCD number with `decimal_places` digits behind the
    /// point, in which bytes that are all `0xFF` stand for an invalid value;
    /// see [`bcd_decimal_text`].
    pub fn bcd_to_decimal(bcd_array: &[u8], decimal_places: usize, need_delete: bool, sign: bool) -> (r:
        Result<String, DecodeError>)
        ensures
            match r {
                Ok(text) => bcd_decimal_text(bcd_array@, decimal_places as nat, need_delete, sign)
                    == Ok::<Seq<char>, DecodeError>(text@),
                Err(e) => bcd_decimal_text(bcd_array@, decimal_places as nat, need_delete, sign)
                    == Err::<Seq<char>, DecodeError>(e),
            },
    {
        Self::bcd_decode(bcd_array, decimal_places, need_delete, sign, true)
    }

    /// Appends `shown` behind as many zeros as it takes to reach two
    /// characters for each of `count` bytes, and one more where the text
    /// holds a point.
    pub(crate) fn push_padded(out: &mut String, shown: &Vec<char>, count: usize, point: bool)
        requires
            point ==> shown@.len() >= 3,
        ensures
            final(out)@ == old(out)@ + pad_left(
                shown@,
                if point {
                    (2 * count + 1) as nat
                } else {
                    (2 * count) as nat
                },
                '0',
            ),
    {
        let have = shown.len();
        let whole = have / 2;
        let odd = have % 2;
        let ghost before = out@;
        let ghost width: nat = if point {
            (2 * count + 1) as nat
        } else {
            (2 * count) as nat
        };
        if point {
            if count >= whole + odd {
                let half = count - whole;
                push_repeated(out, '0', half);
                push_repeated(out, '0', half + 1 - odd);
                assert(out@ =~= before + repeated('0', (width - have) as nat));
            }
        } else {
            if count > whole {
                let half = count - whole;
                push_repeated(out, '0', half);
                push_repeated(out, '0', half - odd);
                assert(out@ =~= before + repeated('0', (width - have) as nat));
            }
        }
        push_chars(out, shown);
        assert(out@ =~= before + pad_left(shown@, width, '0'));
    }

    /// The text of a binary number with `decimal_places` digits behind the
    /// point; see [`bin_decimal_text`].
    pub fn bin_to_decimal(
        bcd_array: &[u8],
        decimal_places: usize,
        need_delete: bool,
        sign: bool,
        judge_ff: bool,
    ) -> (r: Result<String, DecodeError>)
        ensures
            match r {
                Ok(text) => bin_decimal_text(
                    bcd_array@,
                    decimal_places as nat,
                    need_delete,
                    sign,
                    judge_ff,
                ) == Ok::<Seq<char>, DecodeError>(text@),
                Err(e) => bin_decimal_text(
                    bcd_array@,
                    decimal_places as nat,
                    need_delete,
                    sign,
                    judge_ff,
                ) == Err::<Seq<char>, DecodeError>(e),
            },
    {
        if judge_ff && Self::is_array_all_ffs(bcd_array) {
            return Ok(String::from_str("无效数据"));
        }
        let n = bcd_array.len();
        if n == 0 {
            return Err(DecodeError::Empty);
        }
        let plain = if need_delete {
            Self::frame_delete_33h(bcd_array)
        } else {
            Self::copy_bytes(bcd_array)
        };
        let (negative, magnitude) = Self::split_sign(plain, sign);
        let value = match Self::bintodecimal(magnitude.as_slice()) {
            Ok(v) => v,
            Err(e) => {
                return Err(e);
            },
        };
        let mut number = String::new();
        push_decimal(&mut number, value);
        let digits = chars_of(number.as_str());
        assert(digits@ =~= decimal_text(value as nat));
        let mut body = String::new();
        Self::push_with_point(&mut body, &digits, decimal_places);
        let shown = chars_of(body.as_str());
        assert(shown@ =~= with_point(digits@, decimal_places as nat));
        let mut out = String::new();
        if negative {
            out.push('-');
        }
        proof {
            if decimal_places != 0 {
                let full = pad_left(digits@, (decimal_places + 1) as nat, '0');
                assert(full.len() >= decimal_places + 1);
            }
        }
        Self::push_padded(&mut out, &shown, n, decimal_places != 0);
        proof {
            let width: nat = if decimal_places != 0 {
                (2 * n + 1) as nat
            } else {
                (2 * n) as nat
            };
            assert(out@ =~= signed_text(negative, pad_left(shown@, width, '0')));
        }
        Ok(out)
    }

    /// The port that exactly two bytes write, most significant byte first,
    /// in decimal; the empty text for any other number of bytes.
    pub fn prase_port(port_data: &[u8]) -> (text: String)
        ensures
            port_data@.len() != 2 ==> text@ == Seq::<char>::empty(),
            port_data@.len() == 2 ==> text@ == decimal_text(be_value(port_data@)),
    {
        if port_data.len() != 2 {
            return String::new();
        }
        let value: u64 = port_data[0] as u64 * 256 + port_data[1] as u64;
        proof {
            Self::lemma_be_value_two(port_data@);
        }
        let mut out = String::new();
        push_decimal(&mut out, value);
        assert(out@ =~= decimal_text(value as nat));
        out
    }

    /// The value of two bytes, most significant byte first.
    pub proof fn lemma_be_value_two(s: Seq<u8>)
        requires
            s.len() == 2,
        ensures
            be_value(s) == s[0] as nat * 256 + s[1] as nat,
    {
        assert(s.drop_last().drop_last() =~= Seq::<u8>::empty());
        reveal_with_fuel(crate::frame_fun::be_value, 3);
    }

    /// The number that two or more bytes write, most significant byte first,
    /// in decimal; the empty text for fewer bytes. A number above `u64::MAX`
    /// is `OutOfRange`.
    pub fn parse_port(port_data: &[u8]) -> (r: Result<String, DecodeError>)
        ensures
            port_data@.len() < 2 ==> r is Ok && r->Ok_0@ == Seq::<char>::empty(),
            port_data@.len() >= 2 && be_value(port_data@) > u64::MAX ==> r == Err::<
                String,
                DecodeError,
            >(DecodeError::OutOfRange),
            port_data@.len() >= 2 && be_value(port_data@) <= u64::MAX ==> r is Ok && r->Ok_0@
                == decimal_text(be_value(port_data@)),
    {
        if port_data.len() < 2 {
            return Ok(String::new());
        }
        let last_first = Self::reversed(port_data);
        assert(last_first@.reverse() =~= port_data@);
        match Self::bintodecimal(last_first.as_slice()) {
            Ok(value) => {
                let mut out = String::new();
                push_decimal(&mut out, value);
                assert(out@ =~= decimal_text(value as nat));
                Ok(out)
            },
            Err(e) => Err(e),
        }
    }

    /// Exactly four bytes as a dotted address, the last byte first; the empty
    /// text for any other number of bytes.
    pub fn prase_ip_str(ipdata: &[u8]) -> (text: String)
        ensures
            ipdata@.len() != 4 ==> text@ == Seq::<char>::empty(),
            ipdata@.len() == 4 ==> text@ == ip_text(ipdata@),
    {
        if ipdata.len() != 4 {
            return String::new();
        }
        Self::parse_ip_str(ipdata)
    }

    /// The first four bytes as a dotted address, the fourth byte first; the
    /// empty text for fewer bytes.
    pub fn parse_ip_str(ipdata: &[u8]) -> (text: String)
        ensures
            ipdata@.len() < 4 ==> text@ == Seq::<char>::empty(),
            ipdata@.len() >= 4 ==> text@ == ip_text(ipdata@),
    {
        if ipdata.len() < 4 {
            return String::new();
        }
        let mut out = String::new();
        push_decimal(&mut out, ipdata[3] as u64);
        out.push('.');
        push_decimal(&mut out, ipdata[2] as u64);
        out.push('.');
        push_decimal(&mut out, ipdata[1] as u64);
        out.push('.');
        push_decimal(&mut out, ipdata[0] as u64);
        assert(out@ =~= ip_text(ipdata@));
        out
    }

    /// Appends the lowest `width` bits of `value`, most significant first.
    pub fn push_bits(out: &mut String, value: u32, width: usize)
        ensures
            final(out)@ == old(out)@ + bits_text(value as nat, width as nat),
        decreases width,
    {
        if width > 0 {
            Self::push_bits(out, value / 2, width - 1);
            out.push(
                if value % 2 == 1 {
                    '1'
                } else {
                    '0'
                },
            );
        }
        assert(out@ =~= old(out)@ + bits_text(value as nat, width as nat));
    }

    /// Bits `start_bit` to `end_bit` of `value`, both included and counted
    /// from the lowest, as binary digits, the highest first. A range that is
    /// empty or reaches beyond bit 31 is `OutOfRange`.
    pub fn extract_bits(start_bit: usize, end_bit: usize, value: u32) -> (r: Result<
        String,
        DecodeError,
    >)
        ensures
            start_bit > end_bit || end_bit >= 32 ==> r == Err::<String, DecodeError>(
                DecodeError::OutOfRange,
            ),
            start_bit <= end_bit < 32 ==> r is Ok && r->Ok_0@ == bits_text(
                shifted_right(value as nat, start_bit as nat),
                (end_bit - start_bit + 1) as nat,
            ),
    {
        if start_bit > end_bit || end_bit >= 32 {
            return Err(DecodeError::OutOfRange);
        }
        let mut shifted: u32 = value;
        let mut i: usize = start_bit;
        while i > 0
            invariant
                i <= start_bit,
                shifted_right(shifted as nat, i as nat) == shifted_right(
                    value as nat,
                    start_bit as nat,
                ),
            decreases i,
        {
            shifted = shifted / 2;
            i -= 1;
        }
        let mut out = String::new();
        Self::push_bits(&mut out, shifted, end_bit - start_bit + 1);
        assert(out@ =~= bits_text(shifted as nat, (end_bit - start_bit + 1) as nat));
        Ok(out)
    }

    /// The text of a freeze time; see [`freeze_time_text`].
    pub fn parse_freeze_time(data_array: &[u8]) -> (text: String)
        ensures
            text@ == freeze_time_text(data_array@),
    {
        if data_array.len() == 4 && data_array[0] == 0x99 {
            if data_array[1] == 0x99 && data_array[2] == 0x99 && data_array[3] == 0x99 {
                return String::from_str("瞬时冻结");
            } else if data_array[1] == 0x99 && data_array[2] == 0x99 {
                let mut out = String::from_str("每时");
                push_hex_pair(&mut out, data_array[3]);
                out.append("分");
                return out;
            } else if data_array[1] == 0x99 {
                let mut out = String::from_str("每日");
                push_hex_pair(&mut out, data_array[2]);
                out.append("时");
                push_hex_pair(&mut out, data_array[3]);
                out.append("分");
                return out;
            } else {
                let mut out = String::from_str("每月");
                push_hex_pair(&mut out, data_array[1]);
                out.append("日");
                push_hex_pair(&mut out, data_array[2]);
                out.append("时");
                push_hex_pair(&mut out, data_array[3]);
                out.append("分");
                return out;
            }
        }
        String::from_str("未知冻结类型")
    }

    /// The text of the bytes before the first zero byte, read as UTF-8 with
    /// invalid sequences replaced.
    pub fn ascii_to_str(ascii_array: &[u8]) -> (text: String)
        ensures
            text@ == utf8_lossy_text(ascii_array@.take(position_of(ascii_array@, 0) as int)),
    {
        let mut end: usize = 0;
        while end < ascii_array.len() && ascii_array[end] != 0
            invariant
                end <= ascii_array.len(),
                forall|j: int| 0 <= j < end ==> #[trigger] ascii_array@[j] != 0,
            decreases ascii_array.len() - end,
        {
            end += 1;
        }
        proof {
            lemma_position_of(ascii_array@, 0);
            let k = position_of(ascii_array@, 0) as int;
            if k < end {
                assert(ascii_array@[k] != 0);
            }
            if end < k {
                assert(ascii_array@[end as int] != 0);
            }
        }
        let part = vstd::slice::slice_subrange(ascii_array, 0, end);
        assert(part@ =~= ascii_array@.take(end as int));
        lossy_text(part)
    }

    /// The measurement points that a two-byte selector names, and their
    /// number; see [`measurement_points`].
    pub fn calculate_measurement_points(da: &[u8]) -> (r: Result<(usize, Vec<u16>), DecodeError>)
        ensures
            match r {
                Ok(found) => measurement_points(da@) == Ok::<Seq<u16>, DecodeError>(found.1@)
                    && found.0 == found.1@.len(),
                Err(e) => measurement_points(da@) == Err::<Seq<u16>, DecodeError>(e),
            },
    {
        if da.len() < 2 {
            return Err(DecodeError::TooShort);
        }
        let da1 = da[0];
        let da2 = da[1];
        let mut points: Vec<u16> = Vec::new();
        if da1 == 0xFF && da2 == 0xFF {
            points.push(0xFFFF);
            assert(points@ =~= seq![0xFFFFu16]);
            return Ok((1, points));
        }
        if da1 == 0 && da2 == 0 {
            points.push(0);
            assert(points@ =~= seq![0u16]);
            return Ok((1, points));
        }
        if da2 == 0 {
            return Err(DecodeError::OutOfRange);
        }
        let start: u16 = (da2 as u16 - 1) * 8;
        let mut weight: u8 = 1;
        let mut i: u8 = 0;
        while i < 8
            invariant
                i <= 8,
                da2 > 0,
                start == (da2 - 1) * 8,
                i < 8 ==> weight == pow2_u8(i as int),
                points@ == points_upto(da1, da2, i as int),
                points@.len() <= i,
            decreases 8 - i,
        {
            if (da1 / weight) % 2 == 1 {
                points.push(start + i as u16 + 1);
            }
            if i < 7 {
                weight = weight * 2;
            }
            i += 1;
        }
        let count = points.len();
        Ok((count, points))
    }

    /// The text of a measurement point selector; see [`da_text`].
    pub fn parse_da_data(da: &[u8]) -> (text: String)
        ensures
            text@ == da_text(da@),
    {
        let (total, points) = match Self::calculate_measurement_points(da) {
            Ok(found) => found,
            Err(_) => {
                return String::from_str("Pn解析失败");
            },
        };
        if total == 0 {
            return String::from_str("Pn解析失败");
        }
        if points[0] == 0 && total == 1 {
            return String::from_str("Pn=测量点：0(终端)");
        } else if points[0] == 0xFFFF && total == 1 {
            return String::from_str("Pn=测量点：FFFF(除了终端信息点以外的所有测量点)");
        }
        let mut out = String::from_str("Pn=第");
        let ghost head = out@;
        let mut i: usize = 0;
        assert(out@ =~= head + joined_numbers(points@.take(0)));
        while i < points.len()
            invariant
                i <= points.len(),
                out@ == head + joined_numbers(points@.take(i as int)),
            decreases points.len() - i,
        {
            if i > 0 {
                out.append(", ");
            }
            push_decimal(&mut out, points[i] as u64);
            proof {
                let next = points@.take(i + 1);
                assert(next.drop_last() =~= points@.take(i as int));
                assert(next.last() == points@[i as int]);
                if i == 0 {
                    assert(next[0] == points@[0]);
                }
                assert(out@ =~= head + joined_numbers(next));
            }
            i += 1;
        }
        assert(points@.take(i as int) =~= points@);
        out.append("测量点");
        out
    }

    /// The index of the first place where `a` stands directly before `b`.
    pub fn find_pair_in(s: &Vec<char>, a: char, b: char) -> (r: Option<usize>)
        ensures
            match r {
                Some(i) => find_pair(s@, a, b, 0) == Some(i as int) && i + 1 < s@.len(),
                None => find_pair(s@, a, b, 0) is None,
            },
    {
        let n = s.len();
        if n < 2 {
            return None;
        }
        let mut i: usize = 0;
        while i < n - 1
            invariant
                n == s@.len(),
                n >= 2,
                i <= n - 1,
                forall|j: int| 0 <= j < i ==> !#[trigger] pair_at(s@, a, b, j),
            decreases n - i,
        {
            if s[i] == a && s[i + 1] == b {
                proof {
                    lemma_find_pair_skip(s@, a, b, 0, i as int);
                }
                return Some(i);
            }
            i += 1;
        }
        proof {
            lemma_find_pair_skip(s@, a, b, 0, i as int);
        }
        None
    }

    /// The text of a date and time whose bytes stand in the order that the
    /// layout gives: the layout names each byte by two letters (`CC` century,
    /// `YY` year, `MM` month, `DD` day, `WW` weekday, `hh` hour, `mm` minute,
    /// `ss` second), and the text shows the parts in that fixed order,
    /// whatever the order of the bytes. A layout that names a byte beyond the
    /// data is `TooShort`.
    pub fn parse_time_data(data_array: &[u8], format_str: &str, need_delete: bool) -> (r: Result<
        String,
        DecodeError,
    >)
        ensures
            match r {
                Ok(text) => time_text(plain_bytes(data_array@, need_delete), format_str@, 8)
                    == Some(text@),
                Err(e) => e == DecodeError::TooShort && time_text(
                    plain_bytes(data_array@, need_delete),
                    format_str@,
                    8,
                ) is None,
            },
    {
        let data = if need_delete {
            Self::frame_delete_33h(data_array)
        } else {
            Self::copy_bytes(data_array)
        };
        let layout = chars_of(format_str);
        let mut out = String::new();
        let mut k: u8 = 0;
        assert(out@ =~= Seq::<char>::empty());
        while k < 8
            invariant
                k <= 8,
                data@ == plain_bytes(data_array@, need_delete),
                layout@ == format_str@,
                time_text(data@, layout@, k as int) == Some(out@),
            decreases 8 - k,
        {
            let letter = Self::time_letter_of(k);
            let ghost before = out@;
            match Self::find_pair_in(&layout, letter, letter) {
                None => {
                    assert(out@ =~= before + Seq::<char>::empty());
                },
                Some(index) => {
                    let at = index / 2;
                    if at >= data.len() {
                        proof {
                            assert(time_part(data@, layout@, k as int) is None);
                            lemma_time_text_none(data@, layout@, k + 1, 8);
                        }
                        return Err(DecodeError::TooShort);
                    }
                    let value = data[at];
                    if k == 4 {
                        out.append(Self::weekday_name(value));
                    } else {
                        push_hex_pair(&mut out, value);
                        out.append(Self::time_suffix_of(k));
                        assert(out@ =~= before + (hex_pair(value) + time_suffix(k as int)));
                    }
                },
            }
            k += 1;
        }
        Ok(out)
    }

    /// The letter of the `k`-th part of a time.
    pub fn time_letter_of(k: u8) -> (c: char)
        ensures
            c == time_letter(k as int),
    {
        if k == 0 {
            'C'
        } else if k == 1 {
            'Y'
        } else if k == 2 {
            'M'
        } else if k == 3 {
            'D'
        } else if k == 4 {
            'W'
        } else if k == 5 {
            'h'
        } else if k == 6 {
            'm'
        } else {
            's'
        }
    }

    /// What follows the two digits of the `k`-th part of a time.
    pub fn time_suffix_of(k: u8) -> (s: &'static str)
        ensures
            s@ == time_suffix(k as int),
    {
        if k == 1 {
            "年"
        } else if k == 2 {
            "月"
        } else if k == 3 {
            "日"
        } else if k == 5 {
            "时"
        } else if k == 6 {
            "分"
        } else if k == 7 {
            "秒"
        } else {
            proof {
                reveal_strlit("");
            }
            assert(""@ =~= Seq::<char>::empty());
            ""
        }
    }

    /// The name of a weekday, 0 standing for Sunday.
    pub fn weekday_name(v: u8) -> (s: &'static str)
        ensures
            s@ == weekday_text(v),
    {
        if v == 0 {
            "天"
        } else if v == 1 {
            "一"
        } else if v == 2 {
            "二"
        } else if v == 3 {
            "三"
        } else if v == 4 {
            "四"
        } else if v == 5 {
            "五"
        } else if v == 6 {
            "六"
        } else {
            "未知"
        }
    }
}

} // verus!
