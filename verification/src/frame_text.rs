//! The textual side of the byte codec: hexadecimal input and output, numbers
//! in decimal, and the fixed phrases of decoded values.

use crate::error::DecodeError;
use crate::frame_fun::{bcd_value, be_value, le_value, strip_bias, FrameFun};
use crate::text::{
    all_hex, chars_of, chars_without, chars_without_blanks, hex_bytes, hex_text, hex_text_lower,
    hex_text_spaced, hex_value, hex_value_of, push_hex_text, push_hex_text_spaced, upper_char_of,
    upper_text, without_blanks, without_char,
};
use vstd::prelude::*;

verus! {

/// `hex::encode` of the `hex` crate: each byte as two lower-case hexadecimal
/// digits, the high nibble first, in the order of the bytes.
#[verifier::external_body]
fn hex_encode(data: &[u8]) -> (text: String)
    ensures
        text@ == hex_text_lower(data@),
{
    hex::encode(data)
}

/// The `k`-th group of two characters of `s`; the last group of a text of odd
/// length holds one character.
pub open spec fn chunk(s: Seq<char>, k: int) -> Seq<char> {
    s.subrange(
        2 * k,
        if 2 * k + 2 <= s.len() {
            2 * k + 2
        } else {
            s.len() as int
        },
    )
}

/// The number of groups of two characters in `s`, a last single one counted.
pub open spec fn chunk_count(s: Seq<char>) -> nat {
    ((s.len() + 1) / 2) as nat
}

/// The byte that a group of one or two hexadecimal digits writes.
pub open spec fn chunk_byte(c: Seq<char>) -> Option<u8> {
    if c.len() == 1 && hex_value(c[0]) is Some {
        Some(hex_value(c[0])->0 as u8)
    } else if c.len() == 2 && hex_value(c[0]) is Some && hex_value(c[1]) is Some {
        Some((hex_value(c[0])->0 * 16 + hex_value(c[1])->0) as u8)
    } else {
        None
    }
}

/// The bytes of the first `n` groups of `s`, groups that are no hexadecimal
/// number left out.
pub open spec fn chunk_bytes(s: Seq<char>, n: nat) -> Seq<u8>
    decreases n,
{
    if n == 0 {
        Seq::empty()
    } else {
        match chunk_byte(chunk(s, n - 1)) {
            Some(b) => chunk_bytes(s, (n - 1) as nat).push(b),
            None => chunk_bytes(s, (n - 1) as nat),
        }
    }
}

/// The first `n` groups of `s` in upper case, each followed by a space.
pub open spec fn spaced_chunks(s: Seq<char>, n: nat) -> Seq<char>
    decreases n,
{
    if n == 0 {
        Seq::empty()
    } else {
        spaced_chunks(s, (n - 1) as nat) + upper_text(chunk(s, n - 1)) + seq![' ']
    }
}

/// The first `n` groups of `s` in upper case, joined by spaces.
pub open spec fn ordered_chunks(s: Seq<char>, n: nat) -> Seq<char>
    decreases n,
{
    if n == 0 {
        Seq::empty()
    } else if n == 1 {
        upper_text(chunk(s, 0))
    } else {
        ordered_chunks(s, (n - 1) as nat) + seq![' '] + upper_text(chunk(s, n - 1))
    }
}

/// The last `n` groups of `s` in upper case, the last one first, joined by
/// spaces.
pub open spec fn reversed_chunks(s: Seq<char>, n: nat) -> Seq<char>
    decreases n,
{
    if n == 0 {
        Seq::empty()
    } else if n == 1 {
        upper_text(chunk(s, chunk_count(s) - 1))
    } else {
        reversed_chunks(s, (n - 1) as nat) + seq![' '] + upper_text(chunk(s, chunk_count(s) - n))
    }
}

/// The text in which `get_data_str` shows bytes.
pub open spec fn data_text(
    data: Seq<u8>,
    need_delete: bool,
    need_reverse: bool,
    with_space: bool,
) -> Seq<char> {
    let plain = if need_delete {
        strip_bias(data)
    } else {
        data
    };
    let ordered = if need_reverse {
        plain.reverse()
    } else {
        plain
    };
    if with_space {
        hex_text_spaced(ordered)
    } else {
        hex_text(ordered)
    }
}

pub proof fn lemma_be_value_grows(s: Seq<u8>, k: int)
    requires
        0 <= k <= s.len(),
    ensures
        be_value(s.take(k)) <= be_value(s),
    decreases s.len() - k,
{
    if k == s.len() {
        assert(s.take(k) =~= s);
    } else {
        lemma_be_value_grows(s, k + 1);
        assert(s.take(k + 1).drop_last() =~= s.take(k));
    }
}

pub proof fn lemma_bcd_value_grows(s: Seq<u8>, k: int)
    requires
        0 <= k <= s.len(),
    ensures
        bcd_value(s.skip(k)) <= bcd_value(s),
    decreases k,
{
    if k == 0 {
        assert(s.skip(0) =~= s);
    } else {
        lemma_bcd_value_grows(s, k - 1);
        assert(s.skip(k - 1).drop_first() =~= s.skip(k));
    }
}

/// `s` without its spaces, line feeds and carriage returns.
pub open spec fn without_breaks(s: Seq<char>) -> Seq<char> {
    without_char(without_blanks(s), '\r')
}

/// The bytes that hexadecimal text writes, two digits per byte, spaces, line
/// feeds and carriage returns set aside. An odd number of digits is
/// `TooShort`; a character that is no hexadecimal digit is `InvalidDigit`.
pub fn hex_to_bytes(hex: &str) -> (r: Result<Vec<u8>, DecodeError>)
    ensures
        without_breaks(hex@).len() % 2 != 0 ==> r == Err::<Vec<u8>, DecodeError>(
            DecodeError::TooShort,
        ),
        without_breaks(hex@).len() % 2 == 0 && !all_hex(without_breaks(hex@)) ==> r == Err::<
            Vec<u8>,
            DecodeError,
        >(DecodeError::InvalidDigit),
        without_breaks(hex@).len() % 2 == 0 && all_hex(without_breaks(hex@)) ==> r is Ok
            && r->Ok_0@ == hex_bytes(without_breaks(hex@)),
{
    let cleaned = chars_without(&chars_without_blanks(&chars_of(hex)), '\r');
    FrameFun::hex_bytes_of(&cleaned)
}

/// The bytes as upper-case hexadecimal pairs joined by spaces.
pub fn bytes_to_hex(bytes: &[u8]) -> (text: String)
    ensures
        text@ == hex_text_spaced(bytes@),
{
    FrameFun::get_data_str_with_space(bytes)
}

impl FrameFun {
    /// The bytes as lower-case hexadecimal text.
    pub fn get_frame_from_bytes(data: &[u8]) -> (r: Result<String, DecodeError>)
        ensures
            r is Ok,
            r->Ok_0@ == hex_text_lower(data@),
    {
        Ok(hex_encode(data))
    }

    /// The bytes that hexadecimal text writes, spaces and line feeds set
    /// aside: two digits per byte. Text with an odd number of digits, or with
    /// any other character, writes none.
    pub fn get_hex_frame(text: &str) -> (r: Option<Vec<u8>>)
        ensures
            r is Some <==> without_blanks(text@).len() % 2 == 0 && all_hex(without_blanks(text@)),
            r is Some ==> r->0@ == hex_bytes(without_blanks(text@)),
    {
        match Self::get_frame_list_from_str(text) {
            Ok(v) => Some(v),
            Err(_) => None,
        }
    }

    /// The bytes that hexadecimal text writes, spaces and line feeds set
    /// aside. An odd number of digits is `TooShort`; a character that is no
    /// hexadecimal digit is `InvalidDigit`.
    pub fn get_frame_list_from_str(input_text: &str) -> (r: Result<Vec<u8>, DecodeError>)
        ensures
            without_blanks(input_text@).len() % 2 != 0 ==> r == Err::<Vec<u8>, DecodeError>(
                DecodeError::TooShort,
            ),
            without_blanks(input_text@).len() % 2 == 0 && !all_hex(without_blanks(input_text@))
                ==> r == Err::<Vec<u8>, DecodeError>(DecodeError::InvalidDigit),
            without_blanks(input_text@).len() % 2 == 0 && all_hex(without_blanks(input_text@))
                ==> r is Ok && r->Ok_0@ == hex_bytes(without_blanks(input_text@)),
    {
        let chars = chars_of(input_text);
        let cleaned = chars_without_blanks(&chars);
        Self::hex_bytes_of(&cleaned)
    }

    /// The bytes that hexadecimal digits write, two digits per byte. An odd
    /// number of digits is `TooShort`; a character that is no hexadecimal
    /// digit is `InvalidDigit`.
    pub fn hex_bytes_of(cleaned: &Vec<char>) -> (r: Result<Vec<u8>, DecodeError>)
        ensures
            cleaned@.len() % 2 != 0 ==> r == Err::<Vec<u8>, DecodeError>(DecodeError::TooShort),
            cleaned@.len() % 2 == 0 && !all_hex(cleaned@) ==> r == Err::<Vec<u8>, DecodeError>(
                DecodeError::InvalidDigit,
            ),
            cleaned@.len() % 2 == 0 && all_hex(cleaned@) ==> r is Ok && r->Ok_0@ == hex_bytes(
                cleaned@,
            ),
    {
        if cleaned.len() % 2 != 0 {
            return Err(DecodeError::TooShort);
        }
        let mut out: Vec<u8> = Vec::new();
        let mut i: usize = 0;
        while i < cleaned.len()
            invariant
                i <= cleaned.len(),
                i % 2 == 0,
                cleaned@.len() % 2 == 0,
                out@.len() == i / 2,
                forall|j: int| 0 <= j < i ==> (#[trigger] hex_value(cleaned@[j])) is Some,
                forall|k: int|
                    0 <= k < i / 2 ==> out@[k] == (hex_value(cleaned@[2 * k])->0 * 16 + hex_value(
                        cleaned@[2 * k + 1],
                    )->0) as u8,
            decreases cleaned.len() - i,
        {
            let hi = hex_value_of(cleaned[i]);
            let lo = hex_value_of(cleaned[i + 1]);
            match (hi, lo) {
                (Some(h), Some(l)) => {
                    out.push(h * 16 + l);
                },
                _ => {
                    assert(hex_value(cleaned@[i as int]) is None || hex_value(cleaned@[i + 1])
                        is None);
                    return Err(DecodeError::InvalidDigit);
                },
            }
            i += 2;
        }
        assert(out@ =~= hex_bytes(cleaned@));
        Ok(out)
    }

    /// Appends the bytes that the text writes in groups of two hexadecimal
    /// digits, spaces and line feeds set aside; a last single digit writes
    /// a byte of its own. Returns half the number of characters that were
    /// read. Text with a character that is no hexadecimal digit is
    /// `InvalidDigit`, and nothing is appended.
    pub fn prase_text_to_frame(text: &str, frame: &mut Vec<u8>) -> (r: Result<usize, DecodeError>)
        ensures
            !all_hex(without_blanks(text@)) ==> r == Err::<usize, DecodeError>(
                DecodeError::InvalidDigit,
            ) && final(frame)@ == old(frame)@,
            all_hex(without_blanks(text@)) ==> r == Ok::<usize, DecodeError>(
                (without_blanks(text@).len() / 2) as usize,
            ) && final(frame)@ == old(frame)@ + chunk_bytes(
                without_blanks(text@),
                chunk_count(without_blanks(text@)),
            ),
    {
        let chars = chars_of(text);
        let cleaned = chars_without_blanks(&chars);
        let n = cleaned.len();
        let total: usize = n / 2 + n % 2;
        let mut bytes: Vec<u8> = Vec::new();
        let mut k: usize = 0;
        assert(bytes@ =~= chunk_bytes(cleaned@, 0));
        while k < total
            invariant
                n == cleaned@.len(),
                total == chunk_count(cleaned@),
                cleaned@ == without_blanks(text@),
                *frame == *old(frame),
                k <= total,
                forall|j: int| 0 <= j < 2 * k && j < n ==> (#[trigger] hex_value(cleaned@[j])) is Some,
                bytes@ == chunk_bytes(cleaned@, k as nat),
            decreases total - k,
        {
            let ghost c = chunk(cleaned@, k as int);
            let hi = match hex_value_of(cleaned[2 * k]) {
                Some(h) => h,
                None => {
                    assert(hex_value(cleaned@[2 * k]) is None);
                    return Err(DecodeError::InvalidDigit);
                },
            };
            if 2 * k + 1 < n {
                let lo = match hex_value_of(cleaned[2 * k + 1]) {
                    Some(l) => l,
                    None => {
                        assert(hex_value(cleaned@[2 * k + 1]) is None);
                        return Err(DecodeError::InvalidDigit);
                    },
                };
                proof {
                    assert(c.len() == 2);
                    assert(c[0] == cleaned@[2 * k]);
                    assert(c[1] == cleaned@[2 * k + 1]);
                }
                bytes.push(hi * 16 + lo);
            } else {
                proof {
                    assert(c.len() == 1);
                    assert(c[0] == cleaned@[2 * k]);
                }
                bytes.push(hi);
            }
            assert(bytes@ =~= chunk_bytes(cleaned@, (k + 1) as nat));
            k += 1;
        }
        assert(all_hex(cleaned@));
        frame.extend_from_slice(bytes.as_slice());
        Ok(n / 2)
    }

    /// The text in groups of two characters, spaces and line feeds set aside,
    /// ASCII letters in upper case, a space after every group.
    pub fn get_format_str(input_text: &str) -> (out: String)
        ensures
            out@ == spaced_chunks(
                without_blanks(input_text@),
                chunk_count(without_blanks(input_text@)),
            ),
    {
        let chars = chars_of(input_text);
        let cleaned = chars_without_blanks(&chars);
        let n = cleaned.len();
        let total: usize = n / 2 + n % 2;
        let mut out = String::new();
        let mut k: usize = 0;
        assert(out@ =~= spaced_chunks(cleaned@, 0));
        while k < total
            invariant
                n == cleaned@.len(),
                total == chunk_count(cleaned@),
                cleaned@ == without_blanks(input_text@),
                k <= total,
                out@ == spaced_chunks(cleaned@, k as nat),
            decreases total - k,
        {
            let ghost before = out@;
            Self::push_upper_chunk(&mut out, &cleaned, k);
            out.push(' ');
            assert(out@ =~= before + upper_text(chunk(cleaned@, k as int)) + seq![' ']);
            k += 1;
        }
        out
    }

    /// Appends group `k` of `s` with its ASCII letters in upper case.
    pub(crate) fn push_upper_chunk(out: &mut String, s: &Vec<char>, k: usize)
        requires
            2 * k < s@.len(),
        ensures
            final(out)@ == old(out)@ + upper_text(chunk(s@, k as int)),
    {
        let ghost c = chunk(s@, k as int);
        let n = s.len();
        out.push(upper_char_of(s[2 * k]));
        if 2 * k + 1 < n {
            out.push(upper_char_of(s[2 * k + 1]));
            assert(c.len() == 2);
            assert(out@ =~= old(out)@ + upper_text(c));
        } else {
            assert(c.len() == 1);
            assert(out@ =~= old(out)@ + upper_text(c));
        }
    }

    /// The text in groups of two characters, ASCII letters in upper case,
    /// joined by spaces.
    pub fn str_order_with_space(s: &str) -> (out: String)
        ensures
            out@ == ordered_chunks(s@, chunk_count(s@)),
    {
        let chars = chars_of(s);
        let n = chars.len();
        let total: usize = n / 2 + n % 2;
        let mut out = String::new();
        let mut k: usize = 0;
        while k < total
            invariant
                n == chars@.len(),
                total == chunk_count(chars@),
                chars@ == s@,
                k <= total,
                out@ == ordered_chunks(chars@, k as nat),
            decreases total - k,
        {
            if k > 0 {
                out.push(' ');
            }
            Self::push_upper_chunk(&mut out, &chars, k);
            assert(out@ =~= ordered_chunks(chars@, (k + 1) as nat));
            k += 1;
        }
        out
    }

    /// The groups of two characters of the text in the opposite order, ASCII
    /// letters in upper case, joined by spaces.
    pub fn str_reverse_with_space(s: &str) -> (out: String)
        ensures
            out@ == reversed_chunks(s@, chunk_count(s@)),
    {
        let chars = chars_of(s);
        let n = chars.len();
        let total: usize = n / 2 + n % 2;
        let mut out = String::new();
        let mut done: usize = 0;
        while done < total
            invariant
                n == chars@.len(),
                total == chunk_count(chars@),
                chars@ == s@,
                done <= total,
                out@ == reversed_chunks(chars@, done as nat),
            decreases total - done,
        {
            if done > 0 {
                out.push(' ');
            }
            Self::push_upper_chunk(&mut out, &chars, total - 1 - done);
            assert(out@ =~= reversed_chunks(chars@, (done + 1) as nat));
            done += 1;
        }
        out
    }

    /// The bytes in upper-case hexadecimal, joined by spaces.
    pub fn get_data_str_with_space(data: &[u8]) -> (out: String)
        ensures
            out@ == hex_text_spaced(data@),
    {
        let mut out = String::new();
        push_hex_text_spaced(&mut out, data);
        assert(out@ =~= hex_text_spaced(data@));
        out
    }

    /// The bytes in upper-case hexadecimal.
    pub fn get_data_str_order(data: &[u8]) -> (out: String)
        ensures
            out@ == hex_text(data@),
    {
        let mut out = String::new();
        push_hex_text(&mut out, data);
        assert(out@ =~= hex_text(data@));
        out
    }

    /// The bytes in the opposite order in upper-case hexadecimal.
    pub fn get_data_str_reverser(data: &[u8]) -> (out: String)
        ensures
            out@ == hex_text(data@.reverse()),
    {
        let r = Self::reversed(data);
        Self::get_data_str_order(r.as_slice())
    }

    /// The bytes in the opposite order in upper-case hexadecimal, joined by
    /// spaces.
    pub fn get_data_str_reverser_with_space(data: &[u8]) -> (out: String)
        ensures
            out@ == hex_text_spaced(data@.reverse()),
    {
        let r = Self::reversed(data);
        Self::get_data_str_with_space(r.as_slice())
    }

    /// The bytes without the transmission bias, in the opposite order, in
    /// upper-case hexadecimal.
    pub fn get_data_str_delete_33h_reverse(data: &[u8]) -> (out: String)
        ensures
            out@ == hex_text(strip_bias(data@).reverse()),
    {
        let plain = Self::frame_delete_33h(data);
        Self::get_data_str_reverser(plain.as_slice())
    }

    /// The bytes without the transmission bias in upper-case hexadecimal.
    pub fn get_data_item_str_delete_33h_order(data: &[u8]) -> (out: String)
        ensures
            out@ == hex_text(strip_bias(data@)),
    {
        let plain = Self::frame_delete_33h(data);
        Self::get_data_str_order(plain.as_slice())
    }

    /// The bytes in the opposite order in upper-case hexadecimal, without the
    /// transmission bias where `need_delete` asks for it. The order is always
    /// reversed, whatever `need_reverse` holds.
    pub fn get_data_normal_reverser(data: &[u8], need_delete: bool, need_reverse: bool) -> (out:
        String)
        ensures
            out@ == data_text(data@, need_delete, true, false),
    {
        if need_delete {
            Self::get_data_str_delete_33h_reverse(data)
        } else {
            Self::get_data_str_reverser(data)
        }
    }

    /// The bytes in upper-case hexadecimal: without the transmission bias,
    /// in the opposite order, and joined by spaces, each as asked.
    pub fn get_data_str(data: &[u8], need_delete: bool, need_reverse: bool, with_space: bool) -> (out:
        String)
        ensures
            out@ == data_text(data@, need_delete, need_reverse, with_space),
    {
        let plain = if need_delete {
            Self::frame_delete_33h(data)
        } else {
            Self::copy_bytes(data)
        };
        let ordered = if need_reverse {
            Self::reversed(plain.as_slice())
        } else {
            plain
        };
        if with_space {
            Self::get_data_str_with_space(ordered.as_slice())
        } else {
            Self::get_data_str_order(ordered.as_slice())
        }
    }

    /// The number that the bytes write, least significant byte first. No
    /// bytes are `Empty`; a number above `u64::MAX` is `OutOfRange`.
    pub fn bintodecimal(binary_data: &[u8]) -> (r: Result<u64, DecodeError>)
        ensures
            binary_data@.len() == 0 ==> r == Err::<u64, DecodeError>(DecodeError::Empty),
            binary_data@.len() > 0 && le_value(binary_data@) > u64::MAX ==> r == Err::<
                u64,
                DecodeError,
            >(DecodeError::OutOfRange),
            binary_data@.len() > 0 && le_value(binary_data@) <= u64::MAX ==> r == Ok::<
                u64,
                DecodeError,
            >(le_value(binary_data@) as u64),
    {
        if binary_data.len() == 0 {
            return Err(DecodeError::Empty);
        }
        let rev = Self::reversed(binary_data);
        let mut acc: u64 = 0;
        let mut i: usize = 0;
        assert(rev@.take(0) =~= Seq::<u8>::empty());
        while i < rev.len()
            invariant
                i <= rev.len(),
                rev@ == binary_data@.reverse(),
                acc == be_value(rev@.take(i as int)),
            decreases rev.len() - i,
        {
            let b = rev[i] as u64;
            proof {
                assert(rev@.take(i + 1).drop_last() =~= rev@.take(i as int));
            }
            if acc > (u64::MAX - b) / 256 {
                proof {
                    lemma_be_value_grows(rev@, i + 1);
                }
                return Err(DecodeError::OutOfRange);
            }
            acc = acc * 256 + b;
            i += 1;
        }
        assert(rev@.take(i as int) =~= rev@);
        Ok(acc)
    }

    /// The number that the bytes write, least significant byte first, the
    /// transmission bias removed first where asked. No bytes are `Empty`; a
    /// number above `u32::MAX` is `OutOfRange`.
    pub fn hex_array_to_int(hex_array: &[u8], need_delete: bool) -> (r: Result<u32, DecodeError>)
        ensures
            hex_array@.len() == 0 ==> r == Err::<u32, DecodeError>(DecodeError::Empty),
            hex_array@.len() > 0 ==> ({
                let plain = if need_delete {
                    strip_bias(hex_array@)
                } else {
                    hex_array@
                };
                if le_value(plain) > u32::MAX {
                    r == Err::<u32, DecodeError>(DecodeError::OutOfRange)
                } else {
                    r == Ok::<u32, DecodeError>(le_value(plain) as u32)
                }
            }),
    {
        let plain = if need_delete {
            Self::frame_delete_33h(hex_array)
        } else {
            Self::copy_bytes(hex_array)
        };
        match Self::bintodecimal(plain.as_slice()) {
            Ok(v) => {
                if v > 0xFFFF_FFFF {
                    Err(DecodeError::OutOfRange)
                } else {
                    Ok(v as u32)
                }
            },
            Err(e) => Err(e),
        }
    }

    /// The number that packed BCD bytes write, least significant byte first,
    /// the transmission bias removed first where asked. A number above
    /// `u32::MAX` is `OutOfRange`.
    pub fn bcd_to_int(bcd_array: &[u8], need_delete: bool) -> (r: Result<u32, DecodeError>)
        ensures
            ({
                let plain = if need_delete {
                    strip_bias(bcd_array@)
                } else {
                    bcd_array@
                };
                if bcd_value(plain) > u32::MAX {
                    r == Err::<u32, DecodeError>(DecodeError::OutOfRange)
                } else {
                    r == Ok::<u32, DecodeError>(bcd_value(plain) as u32)
                }
            }),
    {
        let plain = if need_delete {
            Self::frame_delete_33h(bcd_array)
        } else {
            Self::copy_bytes(bcd_array)
        };
        let mut acc: u32 = 0;
        let mut i: usize = plain.len();
        assert(plain@.skip(i as int) =~= Seq::<u8>::empty());
        while i > 0
            invariant
                i <= plain.len(),
                plain@ == (if need_delete {
                    strip_bias(bcd_array@)
                } else {
                    bcd_array@
                }),
                acc == bcd_value(plain@.skip(i as int)),
            decreases i,
        {
            i -= 1;
            let v: u32 = Self::bcd2int(plain[i]);
            proof {
                assert(plain@.skip(i as int).drop_first() =~= plain@.skip(i + 1));
                assert(plain@.skip(i as int)[0] == plain@[i as int]);
            }
            if acc > (0xFFFF_FFFFu32 - v) / 100 {
                proof {
                    lemma_bcd_value_grows(plain@, i as int);
                }
                return Err(DecodeError::OutOfRange);
            }
            acc = acc * 100 + v;
        }
        assert(plain@.skip(0) =~= plain@);
        Ok(acc)
    }

    /// The number that the bytes write, most significant byte first, modulo
    /// 2 to the power 32.
    pub fn cosem_bin2_int32u(bin: &[u8]) -> (val: u32)
        ensures
            val == be_value(bin@) % 0x1_0000_0000,
    {
        let mut val: u32 = 0;
        let mut i: usize = 0;
        assert(bin@.take(0) =~= Seq::<u8>::empty());
        while i < bin.len()
            invariant
                i <= bin.len(),
                val == be_value(bin@.take(i as int)) % 0x1_0000_0000,
            decreases bin.len() - i,
        {
            let b = bin[i] as u32;
            proof {
                assert(bin@.take(i + 1).drop_last() =~= bin@.take(i as int));
                let x = be_value(bin@.take(i as int)) as int;
                assert(((x % 0x1_0000_0000) % 0x100_0000) * 256 + b == (x * 256 + b)
                    % 0x1_0000_0000) by (nonlinear_arith)
                    requires
                        0 <= x,
                        0 <= b < 256,
                ;
            }
            val = (val % 0x100_0000) * 256 + b;
            i += 1;
        }
        assert(bin@.take(i as int) =~= bin@);
        val
    }
}

} // verus!
