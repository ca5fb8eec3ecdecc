//! Stateless byte-level helpers of the codec: bias, checksums, BCD, bit
//! handling and the textual forms in which decoded values are shown.

use crate::error::DecodeError;
use crate::text::{hex_text, pad_left};
use vstd::prelude::*;

verus! {

/// The namespace of the byte codec utilities.
pub struct FrameFun;

/// The transmission bias that DLT/645 adds to every byte of a data field.
pub const BIAS: u8 = 0x33;

/// One byte with the transmission bias removed, modulo 256.
pub open spec fn unbiased(b: u8) -> u8 {
    ((b as int + 256 - 0x33) % 256) as u8
}

/// One byte with the transmission bias added, modulo 256.
pub open spec fn biased(b: u8) -> u8 {
    ((b as int + 0x33) % 256) as u8
}

/// Every byte with the transmission bias removed.
pub open spec fn strip_bias(s: Seq<u8>) -> Seq<u8> {
    Seq::new(s.len(), |i: int| unbiased(s[i]))
}

/// Every byte with the transmission bias added.
pub open spec fn add_bias(s: Seq<u8>) -> Seq<u8> {
    Seq::new(s.len(), |i: int| biased(s[i]))
}

/// The sum of the bytes.
pub open spec fn byte_sum(s: Seq<u8>) -> nat
    decreases s.len(),
{
    if s.len() == 0 {
        0
    } else {
        byte_sum(s.drop_last()) + s.last() as nat
    }
}

/// The frame checksum: the sum of the bytes modulo 256.
pub open spec fn checksum(s: Seq<u8>) -> u8 {
    (byte_sum(s) % 256) as u8
}

/// The number that the bytes write with the most significant byte first.
pub open spec fn be_value(s: Seq<u8>) -> nat
    decreases s.len(),
{
    if s.len() == 0 {
        0
    } else {
        be_value(s.drop_last()) * 256 + s.last() as nat
    }
}

/// The number that the bytes write with the least significant byte first.
pub open spec fn le_value(s: Seq<u8>) -> nat {
    be_value(s.reverse())
}

/// The two decimal digits of a packed BCD byte as a number; a nibble above
/// nine counts with its binary value.
pub open spec fn bcd_byte_value(b: u8) -> nat {
    ((b / 16) * 10 + b % 16) as nat
}

/// The number that packed BCD bytes write, least significant byte first.
pub open spec fn bcd_value(s: Seq<u8>) -> nat
    decreases s.len(),
{
    if s.len() == 0 {
        0
    } else {
        bcd_value(s.drop_first()) * 100 + bcd_byte_value(s[0])
    }
}

/// Whether both nibbles of every byte are decimal digits.
pub open spec fn is_bcd(s: Seq<u8>) -> bool {
    forall|i: int| 0 <= i < s.len() ==> (#[trigger] s[i]) / 16 < 10 && s[i] % 16 < 10
}

/// The eight bits of a byte, most significant first, each as 0 or 1.
pub open spec fn bit_array(b: u8) -> Seq<u8> {
    seq![
        (b / 128) % 2,
        (b / 64) % 2,
        (b / 32) % 2,
        (b / 16) % 2,
        (b / 8) % 2,
        (b / 4) % 2,
        (b / 2) % 2,
        b % 2,
    ]
}

/// Two to the power `n` for `n` in `0..=7`.
pub open spec fn pow2_u8(n: int) -> u8 {
    if n <= 0 {
        1
    } else if n == 1 {
        2
    } else if n == 2 {
        4
    } else if n == 3 {
        8
    } else if n == 4 {
        16
    } else if n == 5 {
        32
    } else if n == 6 {
        64
    } else {
        128
    }
}

/// The number of bits of the byte that are set.
pub open spec fn bits_set(b: u8) -> nat {
    (b % 2 + (b / 2) % 2 + (b / 4) % 2 + (b / 8) % 2 + (b / 16) % 2 + (b / 32) % 2 + (b / 64) % 2
        + (b / 128) % 2) as nat
}

/// The number of leading bytes of `s` that equal `b`.
pub open spec fn leading_count(s: Seq<u8>, b: u8) -> nat
    decreases s.len(),
{
    if s.len() == 0 || s[0] != b {
        0
    } else {
        1 + leading_count(s.drop_first(), b)
    }
}

/// The bytes of a packed BCD number as decimal digits, most significant
/// digit first: the last byte comes first.
pub open spec fn bcd_digits(s: Seq<u8>) -> Seq<char> {
    hex_text(s.reverse())
}

/// A digit string with a decimal point before its last `places` digits; a
/// string too short for that is first extended by zeros on the left so that
/// one digit stands before the point.
pub open spec fn with_point(digits: Seq<char>, places: nat) -> Seq<char> {
    if places == 0 {
        digits
    } else {
        let full = pad_left(digits, places + 1, '0');
        full.subrange(0, full.len() - places) + seq!['.'] + full.subrange(
            full.len() - places,
            full.len() as int,
        )
    }
}

/// The last byte without its top bit, the other bytes unchanged.
pub open spec fn without_sign_bit(s: Seq<u8>) -> Seq<u8>
    recommends
        s.len() > 0,
{
    s.update(s.len() - 1, (s.last() % 128) as u8)
}

/// Whether the top bit of the last byte is set.
pub open spec fn sign_bit(s: Seq<u8>) -> bool {
    s.len() > 0 && s.last() >= 128
}

pub proof fn lemma_leading_count(s: Seq<u8>, b: u8)
    ensures
        leading_count(s, b) <= s.len(),
        forall|i: int| 0 <= i < leading_count(s, b) ==> #[trigger] s[i] == b,
        leading_count(s, b) < s.len() ==> s[leading_count(s, b) as int] != b,
    decreases s.len(),
{
    if s.len() != 0 && s[0] == b {
        let t = s.drop_first();
        lemma_leading_count(t, b);
        assert forall|i: int| 0 <= i < leading_count(s, b) implies #[trigger] s[i] == b by {
            if i > 0 {
                assert(s[i] == t[i - 1]);
            }
        }
        if leading_count(s, b) < s.len() {
            assert(s[leading_count(s, b) as int] == t[leading_count(t, b) as int]);
        }
    }
}

/// A count of leading bytes is fixed by where the first other byte stands.
pub proof fn lemma_leading_count_is(s: Seq<u8>, b: u8, n: int)
    requires
        0 <= n <= s.len(),
        forall|i: int| 0 <= i < n ==> #[trigger] s[i] == b,
        n < s.len() ==> s[n] != b,
    ensures
        leading_count(s, b) == n,
{
    lemma_leading_count(s, b);
    let k = leading_count(s, b) as int;
    if k < n {
        assert(s[k] == b);
    }
    if n < k {
        assert(s[n] == b);
    }
}

impl FrameFun {
    /// The bytes as a vector of their values.
    pub fn bytes_to_decimal_list(byte_data: &[u8]) -> (r: Result<Vec<u8>, DecodeError>)
        ensures
            r is Ok,
            r->Ok_0@ == byte_data@,
    {
        Ok(Self::copy_bytes(byte_data))
    }

    /// A vector with the same bytes as the slice.
    pub fn copy_bytes(data: &[u8]) -> (v: Vec<u8>)
        ensures
            v@ == data@,
    {
        let mut v: Vec<u8> = Vec::new();
        let mut i: usize = 0;
        while i < data.len()
            invariant
                i <= data.len(),
                v@ == data@.take(i as int),
            decreases data.len() - i,
        {
            v.push(data[i]);
            assert(v@ =~= data@.take(i + 1));
            i += 1;
        }
        assert(data@.take(i as int) =~= data@);
        v
    }

    /// The bytes in the opposite order.
    pub fn reversed(data: &[u8]) -> (v: Vec<u8>)
        ensures
            v@ == data@.reverse(),
    {
        let mut v: Vec<u8> = Vec::new();
        let mut i: usize = data.len();
        while i > 0
            invariant
                i <= data.len(),
                v@.len() == data.len() - i,
                forall|j: int| 0 <= j < v@.len() ==> v@[j] == data@[data.len() - 1 - j],
            decreases i,
        {
            i -= 1;
            v.push(data[i]);
        }
        assert(v@ =~= data@.reverse());
        v
    }

    /// The eight bits of a byte, most significant first.
    pub fn get_bit_array(hexadecimal: u8) -> (bits: Vec<u8>)
        ensures
            bits@ == bit_array(hexadecimal),
    {
        let mut bits: Vec<u8> = Vec::new();
        bits.push((hexadecimal / 128) % 2);
        bits.push((hexadecimal / 64) % 2);
        bits.push((hexadecimal / 32) % 2);
        bits.push((hexadecimal / 16) % 2);
        bits.push((hexadecimal / 8) % 2);
        bits.push((hexadecimal / 4) % 2);
        bits.push((hexadecimal / 2) % 2);
        bits.push(hexadecimal % 2);
        assert(bits@ =~= bit_array(hexadecimal));
        bits
    }

    /// A number from 0 to 99 as one packed BCD byte; a larger one is refused.
    pub fn decimal_to_bcd_byte(decimal_num: u8) -> (r: Result<u8, DecodeError>)
        ensures
            decimal_num > 99 ==> r == Err::<u8, DecodeError>(DecodeError::OutOfRange),
            decimal_num <= 99 ==> r == Ok::<u8, DecodeError>(
                ((decimal_num / 10) * 16 + decimal_num % 10) as u8,
            ),
    {
        if decimal_num > 99 {
            return Err(DecodeError::OutOfRange);
        }
        Ok((decimal_num / 10) * 16 + decimal_num % 10)
    }

    /// Sets bit `bitpos` of a bit string whose bit 0 is the lowest bit of the
    /// first byte. A position of 256 or more, or one beyond the bytes given,
    /// changes nothing.
    pub fn set_bit_value(bitstring: &mut Vec<u8>, bitpos: usize)
        ensures
            bitpos >= 256 || bitpos / 8 >= old(bitstring)@.len() ==> final(bitstring)@ == old(bitstring)@,
            bitpos < 256 && bitpos / 8 < old(bitstring)@.len() ==> final(bitstring)@ == old(bitstring)@.update(
                (bitpos / 8) as int,
                old(bitstring)@[(bitpos / 8) as int] | (1u8 << ((bitpos % 8) as u8)),
            ),
    {
        if bitpos >= 256 || bitpos / 8 >= bitstring.len() {
            return ;
        }
        let byte_no = bitpos / 8;
        let shift: u8 = (bitpos % 8) as u8;
        let updated: u8 = bitstring[byte_no] | (1u8 << shift);
        bitstring.set(byte_no, updated);
    }

    /// Clears bit `bitpos` of a bit string whose bit 0 is the lowest bit of
    /// the first byte. A position of 256 or more, or one beyond the bytes
    /// given, changes nothing.
    pub fn clr_bit_value(bitstring: &mut Vec<u8>, bitpos: usize)
        ensures
            bitpos >= 256 || bitpos / 8 >= old(bitstring)@.len() ==> final(bitstring)@ == old(bitstring)@,
            bitpos < 256 && bitpos / 8 < old(bitstring)@.len() ==> final(bitstring)@ == old(bitstring)@.update(
                (bitpos / 8) as int,
                old(bitstring)@[(bitpos / 8) as int] & !(1u8 << ((bitpos % 8) as u8)),
            ),
    {
        if bitpos >= 256 || bitpos / 8 >= bitstring.len() {
            return ;
        }
        let byte_no = bitpos / 8;
        let shift: u8 = (bitpos % 8) as u8;
        let updated: u8 = bitstring[byte_no] & !(1u8 << shift);
        bitstring.set(byte_no, updated);
    }

    /// Whether every byte equals `value`.
    pub fn is_all_elements_equal(arr: &[u8], value: u8) -> (all: bool)
        ensures
            all == (forall|i: int| 0 <= i < arr@.len() ==> arr@[i] == value),
    {
        let mut i: usize = 0;
        while i < arr.len()
            invariant
                i <= arr.len(),
                forall|j: int| 0 <= j < i ==> arr@[j] == value,
            decreases arr.len() - i,
        {
            if arr[i] != value {
                return false;
            }
            i += 1;
        }
        true
    }

    /// Whether every byte is `0xFF`.
    pub fn is_array_all_ffs(arr: &[u8]) -> (all: bool)
        ensures
            all == (forall|i: int| 0 <= i < arr@.len() ==> arr@[i] == 0xFF),
    {
        Self::is_all_elements_equal(arr, 0xFF)
    }

    /// Whether every byte is zero.
    pub fn is_array_all_zeros(arr: &[u8]) -> (all: bool)
        ensures
            all == (forall|i: int| 0 <= i < arr@.len() ==> arr@[i] == 0),
    {
        Self::is_all_elements_equal(arr, 0)
    }

    /// The frame checksum: the sum of the bytes modulo 256.
    pub fn calculate_cs(data: &[u8]) -> (cs: u8)
        ensures
            cs == checksum(data@),
    {
        let mut cs: u8 = 0;
        let mut i: usize = 0;
        assert(data@.take(0) =~= Seq::<u8>::empty());
        while i < data.len()
            invariant
                i <= data.len(),
                cs == checksum(data@.take(i as int)),
            decreases data.len() - i,
        {
            proof {
                assert(data@.take(i + 1).drop_last() =~= data@.take(i as int));
            }
            cs = ((cs as u16 + data[i] as u16) % 256) as u8;
            i += 1;
        }
        assert(data@.take(i as int) =~= data@);
        cs
    }

    /// Every byte with the transmission bias removed, modulo 256.
    pub fn frame_delete_33h(frame: &[u8]) -> (out: Vec<u8>)
        ensures
            out@ == strip_bias(frame@),
    {
        let mut out: Vec<u8> = Vec::new();
        let mut i: usize = 0;
        while i < frame.len()
            invariant
                i <= frame.len(),
                out@.len() == i,
                forall|j: int| 0 <= j < i ==> out@[j] == unbiased(frame@[j]),
            decreases frame.len() - i,
        {
            out.push(Self::unbias(frame[i]));
            i += 1;
        }
        assert(out@ =~= strip_bias(frame@));
        out
    }

    /// Every byte with the transmission bias added, modulo 256.
    pub fn frame_add_33h(frame: &[u8]) -> (out: Vec<u8>)
        ensures
            out@ == add_bias(frame@),
    {
        let mut out: Vec<u8> = Vec::new();
        let mut i: usize = 0;
        while i < frame.len()
            invariant
                i <= frame.len(),
                out@.len() == i,
                forall|j: int| 0 <= j < i ==> out@[j] == biased(frame@[j]),
            decreases frame.len() - i,
        {
            out.push(Self::bias(frame[i]));
            i += 1;
        }
        assert(out@ =~= add_bias(frame@));
        out
    }

    /// One byte with the transmission bias removed.
    pub fn unbias(b: u8) -> (r: u8)
        ensures
            r == unbiased(b),
    {
        if b >= BIAS {
            b - BIAS
        } else {
            b + (255 - BIAS) + 1
        }
    }

    /// One byte with the transmission bias added.
    pub fn bias(b: u8) -> (r: u8)
        ensures
            r == biased(b),
    {
        if b <= 255 - BIAS {
            b + BIAS
        } else {
            b - (255 - BIAS) - 1
        }
    }

    /// The number of `0xFE` wake-up bytes at the start of the frame.
    pub fn get_frame_fe_count(frame: &[u8]) -> (count: usize)
        ensures
            count == leading_count(frame@, 0xFE),
    {
        let mut i: usize = 0;
        while i < frame.len() && frame[i] == 0xFE
            invariant
                i <= frame.len(),
                forall|j: int| 0 <= j < i ==> #[trigger] frame@[j] == 0xFE,
            decreases frame.len() - i,
        {
            i += 1;
        }
        proof {
            lemma_leading_count_is(frame@, 0xFE, i as int);
        }
        i
    }

    /// The number that one packed BCD byte writes.
    pub fn bcd2int(bcd: u8) -> (r: u32)
        ensures
            r == bcd_byte_value(bcd),
    {
        ((bcd / 16) as u32) * 10 + (bcd % 16) as u32
    }

    /// Each packed BCD byte as the number it writes.
    pub fn bcd_array_to_decimal_array(data_array: &[u8]) -> (out: Vec<u8>)
        ensures
            out@.len() == data_array@.len(),
            forall|i: int| 0 <= i < out@.len() ==> out@[i] == bcd_byte_value(data_array@[i]),
    {
        let mut out: Vec<u8> = Vec::new();
        let mut i: usize = 0;
        while i < data_array.len()
            invariant
                i <= data_array.len(),
                out@.len() == i,
                forall|j: int| 0 <= j < i ==> out@[j] == bcd_byte_value(data_array@[j]),
            decreases data_array.len() - i,
        {
            let b = data_array[i];
            out.push((b / 16) * 10 + b % 16);
            i += 1;
        }
        out
    }

    /// A number below 256 as a packed BCD byte: the tens go to the high
    /// nibble and wrap modulo 16 from 160 on.
    pub fn binary2bcd(binary: u8) -> (r: u8)
        ensures
            r == (((binary / 10) % 16) * 16 + binary % 10),
    {
        ((binary / 10) % 16) * 16 + binary % 10
    }

    /// Each number as a packed BCD byte.
    pub fn binary_to_bcd(binary_array: &[u8]) -> (out: Vec<u8>)
        ensures
            out@.len() == binary_array@.len(),
            forall|i: int|
                0 <= i < out@.len() ==> out@[i] == (((binary_array@[i] / 10) % 16) * 16
                    + binary_array@[i] % 10),
    {
        let mut out: Vec<u8> = Vec::new();
        let mut i: usize = 0;
        while i < binary_array.len()
            invariant
                i <= binary_array.len(),
                out@.len() == i,
                forall|j: int|
                    0 <= j < i ==> out@[j] == (((binary_array@[j] / 10) % 16) * 16
                        + binary_array@[j] % 10),
            decreases binary_array.len() - i,
        {
            out.push(Self::binary2bcd(binary_array[i]));
            i += 1;
        }
        out
    }

    /// The two bytes of a 16-bit number, low byte first.
    pub fn int16_to_bcd(int16: u16) -> (out: Vec<u8>)
        ensures
            out@ == seq![(int16 % 256) as u8, (int16 / 256) as u8],
    {
        let mut out: Vec<u8> = Vec::new();
        out.push((int16 % 256) as u8);
        out.push((int16 / 256) as u8);
        assert(out@ =~= seq![(int16 % 256) as u8, (int16 / 256) as u8]);
        out
    }

    /// Appends the four bytes of a data identifier, low byte first, and
    /// returns their number.
    pub fn item_to_di(item: u32, frame: &mut Vec<u8>) -> (count: usize)
        ensures
            count == 4,
            final(frame)@ == old(frame)@ + seq![
                (item % 256) as u8,
                (item / 256 % 256) as u8,
                (item / 65536 % 256) as u8,
                (item / 16777216) as u8,
            ],
    {
        frame.push((item % 256) as u8);
        frame.push((item / 256 % 256) as u8);
        frame.push((item / 65536 % 256) as u8);
        frame.push((item / 16777216) as u8);
        assert(frame@ =~= old(frame)@ + seq![
            (item % 256) as u8,
            (item / 256 % 256) as u8,
            (item / 65536 % 256) as u8,
            (item / 16777216) as u8,
        ]);
        4
    }

    /// Whether exactly one bit of the byte is set.
    pub fn is_only_one_bit_set(byte: u8) -> (one: bool)
        ensures
            one == (bits_set(byte) == 1),
    {
        let count: u8 = byte % 2 + (byte / 2) % 2 + (byte / 4) % 2 + (byte / 8) % 2 + (byte / 16)
            % 2 + (byte / 32) % 2 + (byte / 64) % 2 + (byte / 128) % 2;
        count == 1
    }
}

} // verus!
