//! Building DLT/645-2007 frames and reading back what a frame was built
//! from.

use crate::error::BuildError;
use crate::frame_645::{is_frame, Frame645, FRAME_END, FRAME_START};
use crate::frame_fun::{
    add_bias, biased, checksum, leading_count, lemma_leading_count_is, strip_bias, unbiased,
    FrameFun,
};
use crate::text::{
    all_hex, chars_of, chars_without, hex_bytes, hex_digit, hex_pair, hex_text, hex_value,
    hex_value_of, same_text, string_of, without_char,
};
use vstd::prelude::*;
use vstd::slice::slice_subrange;

verus! {

/// The control codes of DLT/645-2007 that have a name.
#[derive(Debug, Clone, Copy, PartialEq, Eq, Structural)]
pub enum FunctionCode {
    ReadData,
    ReadDataResponse,
    ReadDataResponseError,
    WriteData,
    WriteDataResponse,
    ReadAddress,
    ReadAddressResponse,
    WriteAddress,
    WriteAddressResponse,
    BroadcastTime,
    WriteFrozenTime,
    WriteFrozenTimeResponse,
    WriteBaudRate,
    WriteBaudRateResponse,
    WritePassword,
    WritePasswordResponse,
    MaximumDemandReset,
    MaximumDemandResetResponse,
    MeterReset,
    MeterResetResponse,
    EventReset,
    EventResetResponse,
}

/// The byte of a control code.
pub open spec fn code_byte(code: FunctionCode) -> u8 {
    match code {
        FunctionCode::ReadData => 0x11,
        FunctionCode::ReadDataResponse => 0x91,
        FunctionCode::ReadDataResponseError => 0xD1,
        FunctionCode::WriteData => 0x14,
        FunctionCode::WriteDataResponse => 0x94,
        FunctionCode::ReadAddress => 0x13,
        FunctionCode::ReadAddressResponse => 0x93,
        FunctionCode::WriteAddress => 0x15,
        FunctionCode::WriteAddressResponse => 0x95,
        FunctionCode::BroadcastTime => 0x08,
        FunctionCode::WriteFrozenTime => 0x16,
        FunctionCode::WriteFrozenTimeResponse => 0x96,
        FunctionCode::WriteBaudRate => 0x17,
        FunctionCode::WriteBaudRateResponse => 0x97,
        FunctionCode::WritePassword => 0x18,
        FunctionCode::WritePasswordResponse => 0x98,
        FunctionCode::MaximumDemandReset => 0x19,
        FunctionCode::MaximumDemandResetResponse => 0x99,
        FunctionCode::MeterReset => 0x1A,
        FunctionCode::MeterResetResponse => 0x9A,
        FunctionCode::EventReset => 0x1B,
        FunctionCode::EventResetResponse => 0x9B,
    }
}

/// The byte of a control code.
pub fn function_code_to_u8(code: FunctionCode) -> (b: u8)
    ensures
        b == code_byte(code),
{
    match code {
        FunctionCode::ReadData => 0x11,
        FunctionCode::ReadDataResponse => 0x91,
        FunctionCode::ReadDataResponseError => 0xD1,
        FunctionCode::WriteData => 0x14,
        FunctionCode::WriteDataResponse => 0x94,
        FunctionCode::ReadAddress => 0x13,
        FunctionCode::ReadAddressResponse => 0x93,
        FunctionCode::WriteAddress => 0x15,
        FunctionCode::WriteAddressResponse => 0x95,
        FunctionCode::BroadcastTime => 0x08,
        FunctionCode::WriteFrozenTime => 0x16,
        FunctionCode::WriteFrozenTimeResponse => 0x96,
        FunctionCode::WriteBaudRate => 0x17,
        FunctionCode::WriteBaudRateResponse => 0x97,
        FunctionCode::WritePassword => 0x18,
        FunctionCode::WritePasswordResponse => 0x98,
        FunctionCode::MaximumDemandReset => 0x19,
        FunctionCode::MaximumDemandResetResponse => 0x99,
        FunctionCode::MeterReset => 0x1A,
        FunctionCode::MeterResetResponse => 0x9A,
        FunctionCode::EventReset => 0x1B,
        FunctionCode::EventResetResponse => 0x9B,
    }
}

/// The control code that a byte stands for, if it has a name.
pub fn u8_to_function_code(value: u8) -> (r: Option<FunctionCode>)
    ensures
        match r {
            Some(code) => code_byte(code) == value,
            None => forall|code: FunctionCode| code_byte(code) != value,
        },
{
    match value {
        0x11 => Some(FunctionCode::ReadData),
        0x91 => Some(FunctionCode::ReadDataResponse),
        0xD1 => Some(FunctionCode::ReadDataResponseError),
        0x14 => Some(FunctionCode::WriteData),
        0x94 => Some(FunctionCode::WriteDataResponse),
        0x13 => Some(FunctionCode::ReadAddress),
        0x93 => Some(FunctionCode::ReadAddressResponse),
        0x15 => Some(FunctionCode::WriteAddress),
        0x95 => Some(FunctionCode::WriteAddressResponse),
        0x08 => Some(FunctionCode::BroadcastTime),
        0x16 => Some(FunctionCode::WriteFrozenTime),
        0x96 => Some(FunctionCode::WriteFrozenTimeResponse),
        0x17 => Some(FunctionCode::WriteBaudRate),
        0x97 => Some(FunctionCode::WriteBaudRateResponse),
        0x18 => Some(FunctionCode::WritePassword),
        0x98 => Some(FunctionCode::WritePasswordResponse),
        0x19 => Some(FunctionCode::MaximumDemandReset),
        0x99 => Some(FunctionCode::MaximumDemandResetResponse),
        0x1A => Some(FunctionCode::MeterReset),
        0x9A => Some(FunctionCode::MeterResetResponse),
        0x1B => Some(FunctionCode::EventReset),
        0x9B => Some(FunctionCode::EventResetResponse),
        _ => None,
    }
}

/// Whether a text is exactly `count` hexadecimal digits.
pub open spec fn is_hex_of(text: Seq<char>, count: nat) -> bool {
    text.len() == count && all_hex(text)
}

/// The bytes that hexadecimal text writes, the last byte first: addresses
/// and identifiers are written with their most significant byte first and
/// travel with their least significant byte first.
pub open spec fn wire_bytes(text: Seq<char>) -> Seq<u8> {
    hex_bytes(text).reverse()
}

/// A frame around an address, a control code and a data field: start
/// marker, address, start marker, control code, length of the data field,
/// data field, checksum over all of these, end marker.
pub open spec fn envelope(address: Seq<u8>, control: u8, data: Seq<u8>) -> Seq<u8> {
    let counted = seq![0x68u8] + address + seq![0x68u8, control, data.len() as u8] + data;
    counted + seq![checksum(counted), 0x16u8]
}

/// The frame that asks for the item `data_id` of the meter `address`.
pub open spec fn read_frame(address: Seq<char>, data_id: Seq<char>) -> Seq<u8> {
    envelope(wire_bytes(address), 0x11, add_bias(wire_bytes(data_id)))
}

/// The frame that writes `data` to the item `data_id` of the meter
/// `address`.
pub open spec fn write_frame(address: Seq<char>, data_id: Seq<char>, data: Seq<u8>) -> Seq<u8> {
    envelope(wire_bytes(address), 0x14, add_bias(wire_bytes(data_id)) + add_bias(data))
}

/// The frame that asks every meter for its address.
pub open spec fn read_address_frame() -> Seq<u8> {
    envelope(seq![0xAAu8, 0xAA, 0xAA, 0xAA, 0xAA, 0xAA], 0x13, Seq::empty())
}

/// The address that a frame names, most significant byte first, in
/// hexadecimal; the frame starts at `start`.
pub open spec fn address_text(frame: Seq<u8>, start: int) -> Seq<char> {
    hex_text(frame.subrange(start, start + 6).reverse())
}

/// The identifier that four bytes write, most significant byte first, in
/// hexadecimal.
pub open spec fn identifier_text(bytes: Seq<u8>, start: int) -> Seq<char> {
    hex_text(bytes.subrange(start, start + 4).reverse())
}

/// What a read request asks for: the address and the identifier, where the
/// frame is a read request with nothing but an identifier in its data
/// field.
pub open spec fn read_request(frame: Seq<u8>) -> Option<(Seq<char>, Seq<char>)> {
    if is_frame(frame) && leading_count(frame, 0xFE) == 0 && frame[8] == 0x11 && frame[9] == 4 {
        Some((address_text(frame, 1), identifier_text(strip_bias(frame.subrange(10, 14)), 0)))
    } else {
        None
    }
}

/// Whether the two characters of `text` at pair `i` are the hexadecimal
/// digits of byte `i` of `bytes`.
pub open spec fn shows_byte(text: Seq<char>, bytes: Seq<u8>, i: int) -> bool {
    text[2 * i] == hex_digit(bytes[i] as int / 16) && text[2 * i + 1] == hex_digit(
        bytes[i] as int % 16,
    )
}

pub proof fn lemma_hex_text_shape(bytes: Seq<u8>)
    ensures
        hex_text(bytes).len() == 2 * bytes.len(),
        forall|i: int| 0 <= i < bytes.len() ==> #[trigger] shows_byte(hex_text(bytes), bytes, i),
    decreases bytes.len(),
{
    if bytes.len() > 0 {
        let front = bytes.drop_last();
        lemma_hex_text_shape(front);
        let t = hex_text(bytes);
        assert(t == hex_text(front) + hex_pair(bytes.last()));
        assert forall|i: int| 0 <= i < bytes.len() implies #[trigger] shows_byte(t, bytes, i) by {
            if i < front.len() {
                assert(shows_byte(hex_text(front), front, i));
                assert(t[2 * i] == hex_text(front)[2 * i]);
                assert(t[2 * i + 1] == hex_text(front)[2 * i + 1]);
            } else {
                assert(t[2 * i] == hex_pair(bytes.last())[0]);
                assert(t[2 * i + 1] == hex_pair(bytes.last())[1]);
            }
        }
    }
}

/// Bytes shown in hexadecimal are hexadecimal digits that write the bytes.
pub proof fn lemma_hex_round_trip(bytes: Seq<u8>)
    ensures
        all_hex(hex_text(bytes)),
        hex_text(bytes).len() == 2 * bytes.len(),
        hex_bytes(hex_text(bytes)) == bytes,
{
    lemma_hex_text_shape(bytes);
    let t = hex_text(bytes);
    assert forall|j: int| 0 <= j < t.len() implies (#[trigger] hex_value(t[j])) is Some by {
        let i = j / 2;
        assert(shows_byte(t, bytes, i));
        if j == 2 * i {
        } else {
            assert(j == 2 * i + 1);
        }
    }
    assert forall|i: int| 0 <= i < bytes.len() implies hex_bytes(t)[i] == bytes[i] by {
        assert(shows_byte(t, bytes, i));
        assert(hex_value(hex_digit(bytes[i] as int / 16)) == Some(bytes[i] as int / 16));
        assert(hex_value(hex_digit(bytes[i] as int % 16)) == Some(bytes[i] as int % 16));
    }
    assert(hex_bytes(t) =~= bytes);
}

/// The bias that is added and removed again leaves the bytes as they were.
pub proof fn lemma_bias_round_trip(bytes: Seq<u8>)
    ensures
        strip_bias(add_bias(bytes)) == bytes,
        add_bias(strip_bias(bytes)) == bytes,
{
    assert forall|i: int| 0 <= i < bytes.len() implies unbiased(biased(bytes[i])) == bytes[i]
        && biased(unbiased(bytes[i])) == bytes[i] by {}
    assert(strip_bias(add_bias(bytes)) =~= bytes);
    assert(add_bias(strip_bias(bytes)) =~= bytes);
}

/// A frame built around six address bytes and at most 255 data bytes is a
/// frame, and its checksum is the sum of all bytes before it.
pub proof fn lemma_envelope(address: Seq<u8>, control: u8, data: Seq<u8>)
    requires
        address.len() == 6,
        data.len() <= 255,
    ensures
        is_frame(envelope(address, control, data)),
        leading_count(envelope(address, control, data), 0xFE) == 0,
        envelope(address, control, data).len() == data.len() + 12,
        envelope(address, control, data)[8] == control,
        envelope(address, control, data)[9] == data.len(),
        envelope(address, control, data).subrange(1, 7) == address,
        envelope(address, control, data).subrange(10, 10 + data.len() as int) == data,
        checksum(
            envelope(address, control, data).subrange(
                0,
                envelope(address, control, data).len() - 2,
            ),
        ) == envelope(address, control, data)[envelope(address, control, data).len() - 2],
{
    let counted = seq![0x68u8] + address + seq![0x68u8, control, data.len() as u8] + data;
    let f = envelope(address, control, data);
    assert(f.len() == data.len() + 12);
    assert(f[0] == 0x68);
    lemma_leading_count_is(f, 0xFE, 0);
    assert(f.subrange(0, f.len() - 2) =~= counted);
    assert(f.subrange(1, 7) =~= address);
    assert(f.subrange(10, 10 + data.len() as int) =~= data);
    assert(f[7] == 0x68);
    assert(f[f.len() - 1] == 0x16);
}

/// What is read back from a read request builds the same request: for an
/// address of twelve and an identifier of eight hexadecimal digits, the
/// frame built from them is a read request, and the frame built from what it
/// asks for is that frame again.
pub proof fn law_read_round_trip(address: Seq<char>, data_id: Seq<char>)
    requires
        is_hex_of(address, 12),
        is_hex_of(data_id, 8),
    ensures
        read_request(read_frame(address, data_id)) is Some,
        ({
            let asked = read_request(read_frame(address, data_id))->0;
            &&& is_hex_of(asked.0, 12)
            &&& is_hex_of(asked.1, 8)
            &&& read_frame(asked.0, asked.1) == read_frame(address, data_id)
        }),
{
    let a = wire_bytes(address);
    let d = wire_bytes(data_id);
    let f = read_frame(address, data_id);
    lemma_envelope(a, 0x11, add_bias(d));
    lemma_bias_round_trip(d);
    let a2 = address_text(f, 1);
    let d2 = identifier_text(strip_bias(f.subrange(10, 14)), 0);
    assert(f.subrange(10, 14) == add_bias(d));
    assert(strip_bias(f.subrange(10, 14)).subrange(0, 4) =~= d);
    assert(f.subrange(1, 7) == a);
    lemma_hex_round_trip(a.reverse());
    lemma_hex_round_trip(d.reverse());
    assert(a.reverse().reverse() =~= a);
    assert(d.reverse().reverse() =~= d);
    assert(wire_bytes(a2) == a);
    assert(wire_bytes(d2) == d);
}

/// Every frame that is built carries the checksum of all its bytes before
/// the checksum.
pub proof fn law_built_checksum(address: Seq<u8>, control: u8, data: Seq<u8>)
    requires
        address.len() == 6,
        data.len() <= 255,
    ensures
        ({
            let f = envelope(address, control, data);
            checksum(f.subrange(0, f.len() - 2)) == f[f.len() - 2]
        }),
{
    lemma_envelope(address, control, data);
}

/// The frame that a request builds, or why it builds none: an address that
/// is not twelve hexadecimal digits, an identifier that is not eight, data of
/// more than 251 bytes.
pub open spec fn built_frame(request: BuildRequest) -> Result<Seq<u8>, BuildError> {
    match request {
        BuildRequest::ReadData { address, data_id } => if !is_hex_of(address@, 12) {
            Err(BuildError::InvalidAddress)
        } else if !is_hex_of(data_id@, 8) {
            Err(BuildError::InvalidIdentifier)
        } else {
            Ok(read_frame(address@, data_id@))
        },
        BuildRequest::WriteData { address, data_id, data } => if !is_hex_of(address@, 12) {
            Err(BuildError::InvalidAddress)
        } else if !is_hex_of(data_id@, 8) {
            Err(BuildError::InvalidIdentifier)
        } else if data@.len() > 251 {
            Err(BuildError::PayloadTooLong)
        } else {
            Ok(write_frame(address@, data_id@, data@))
        },
        BuildRequest::ReadAddress => Ok(read_address_frame()),
    }
}

/// What a frame is built from.
pub enum BuildRequest {
    /// Read the item `data_id` of the meter `address`.
    ReadData { address: String, data_id: String },
    /// Write `data` to the item `data_id` of the meter `address`.
    WriteData { address: String, data_id: String, data: Vec<u8> },
    /// Ask every meter for its address.
    ReadAddress,
}

/// The builder of DLT/645-2007 frames.
pub struct DLT645Builder;

impl DLT645Builder {
    /// A builder.
    pub fn new() -> (b: DLT645Builder) {
        DLT645Builder {  }
    }

    /// The frame checksum: the sum of the bytes modulo 256.
    pub fn calculate_checksum(data: &[u8]) -> (sum: u8)
        ensures
            sum == checksum(data@),
    {
        FrameFun::calculate_cs(data)
    }

    /// The bytes that `count` hexadecimal digit pairs write, the last pair
    /// first, or `None` where the text is not exactly that many pairs of
    /// hexadecimal digits.
    pub(crate) fn wire_bytes_of(text: &str, count: usize) -> (r: Option<Vec<u8>>)
        requires
            count <= 1000,
        ensures
            match r {
                Some(bytes) => is_hex_of(text@, (2 * count) as nat) && bytes@ == wire_bytes(text@),
                None => !is_hex_of(text@, (2 * count) as nat),
            },
    {
        let chars = chars_of(text);
        if chars.len() != 2 * count {
            return None;
        }
        let mut bytes: Vec<u8> = Vec::new();
        let mut i: usize = count;
        while i > 0
            invariant
                i <= count,
                chars@.len() == 2 * count,
                chars@ == text@,
                bytes@.len() == count - i,
                forall|j: int| 2 * i <= j < 2 * count ==> (#[trigger] hex_value(chars@[j])) is Some,
                forall|k: int|
                    0 <= k < bytes@.len() ==> bytes@[k] == hex_bytes(chars@)[count - 1 - k],
            decreases i,
        {
            i -= 1;
            let hi = hex_value_of(chars[2 * i]);
            let lo = hex_value_of(chars[2 * i + 1]);
            match (hi, lo) {
                (Some(h), Some(l)) => {
                    bytes.push(h * 16 + l);
                },
                _ => {
                    assert(hex_value(chars@[2 * i as int]) is None || hex_value(
                        chars@[2 * i + 1],
                    ) is None);
                    return None;
                },
            }
        }
        assert(bytes@ =~= wire_bytes(text@));
        Some(bytes)
    }

    /// The six bytes of an address of twelve hexadecimal digits, the last
    /// pair first. Any other text is `InvalidAddress`.
    pub fn parse_address(&self, address: &str) -> (r: Result<Vec<u8>, BuildError>)
        ensures
            match r {
                Ok(bytes) => is_hex_of(address@, 12) && bytes@ == wire_bytes(address@),
                Err(e) => e == BuildError::InvalidAddress && !is_hex_of(address@, 12),
            },
    {
        match Self::wire_bytes_of(address, 6) {
            Some(bytes) => Ok(bytes),
            None => Err(BuildError::InvalidAddress),
        }
    }

    /// The four bytes of a data identifier of eight hexadecimal digits, the
    /// last pair first. Any other text is `InvalidIdentifier`.
    pub fn parse_data_id(&self, data_id: &str) -> (r: Result<Vec<u8>, BuildError>)
        ensures
            match r {
                Ok(bytes) => is_hex_of(data_id@, 8) && bytes@ == wire_bytes(data_id@),
                Err(e) => e == BuildError::InvalidIdentifier && !is_hex_of(data_id@, 8),
            },
    {
        match Self::wire_bytes_of(data_id, 4) {
            Some(bytes) => Ok(bytes),
            None => Err(BuildError::InvalidIdentifier),
        }
    }

    /// The frame around an address, a control code and a data field; see
    /// [`envelope`].
    pub(crate) fn frame_around(address: &[u8], control: u8, data: &[u8]) -> (frame: Vec<u8>)
        requires
            data@.len() <= 255,
        ensures
            frame@ == envelope(address@, control, data@),
    {
        let mut frame: Vec<u8> = Vec::new();
        frame.push(FRAME_START);
        let mut i: usize = 0;
        while i < address.len()
            invariant
                i <= address.len(),
                frame@ == seq![0x68u8] + address@.take(i as int),
            decreases address.len() - i,
        {
            frame.push(address[i]);
            assert(frame@ =~= seq![0x68u8] + address@.take(i + 1));
            i += 1;
        }
        assert(address@.take(i as int) =~= address@);
        frame.push(FRAME_START);
        frame.push(control);
        frame.push(data.len() as u8);
        let ghost head = frame@;
        let mut j: usize = 0;
        while j < data.len()
            invariant
                j <= data.len(),
                frame@ == head + data@.take(j as int),
            decreases data.len() - j,
        {
            frame.push(data[j]);
            assert(frame@ =~= head + data@.take(j + 1));
            j += 1;
        }
        assert(data@.take(j as int) =~= data@);
        let ghost counted = frame@;
        assert(counted =~= seq![0x68u8] + address@ + seq![0x68u8, control, data@.len() as u8]
            + data@);
        let cs = FrameFun::calculate_cs(frame.as_slice());
        frame.push(cs);
        frame.push(FRAME_END);
        assert(frame@ =~= counted + seq![checksum(counted), 0x16u8]);
        frame
    }

    /// The frame that asks for the item `data_id` of the meter `address`;
    /// see [`read_frame`]. The address must be twelve hexadecimal digits,
    /// the identifier eight.
    pub fn build_read_data_frame(&self, address: &str, data_id: &str) -> (r: Result<
        Vec<u8>,
        BuildError,
    >)
        ensures
            !is_hex_of(address@, 12) ==> r == Err::<Vec<u8>, BuildError>(
                BuildError::InvalidAddress,
            ),
            is_hex_of(address@, 12) && !is_hex_of(data_id@, 8) ==> r == Err::<Vec<u8>, BuildError>(
                BuildError::InvalidIdentifier,
            ),
            is_hex_of(address@, 12) && is_hex_of(data_id@, 8) ==> r is Ok && r->Ok_0@
                == read_frame(address@, data_id@) && is_frame(r->Ok_0@) && checksum(
                r->Ok_0@.subrange(0, r->Ok_0@.len() - 2),
            ) == r->Ok_0@[r->Ok_0@.len() - 2],
    {
        let address_bytes = match self.parse_address(address) {
            Ok(b) => b,
            Err(e) => {
                return Err(e);
            },
        };
        let data_id_bytes = match self.parse_data_id(data_id) {
            Ok(b) => b,
            Err(e) => {
                return Err(e);
            },
        };
        let data = FrameFun::frame_add_33h(data_id_bytes.as_slice());
        proof {
            lemma_envelope(address_bytes@, 0x11, data@);
        }
        Ok(Self::frame_around(address_bytes.as_slice(), 0x11, data.as_slice()))
    }

    /// The frame that writes `data` to the item `data_id` of the meter
    /// `address`; see [`write_frame`]. Data of more than 251 bytes does not
    /// fit the length byte and is `PayloadTooLong`.
    pub fn build_write_data_frame(&self, address: &str, data_id: &str, data: &[u8]) -> (r: Result<
        Vec<u8>,
        BuildError,
    >)
        ensures
            !is_hex_of(address@, 12) ==> r == Err::<Vec<u8>, BuildError>(
                BuildError::InvalidAddress,
            ),
            is_hex_of(address@, 12) && !is_hex_of(data_id@, 8) ==> r == Err::<Vec<u8>, BuildError>(
                BuildError::InvalidIdentifier,
            ),
            is_hex_of(address@, 12) && is_hex_of(data_id@, 8) && data@.len() > 251 ==> r == Err::<
                Vec<u8>,
                BuildError,
            >(BuildError::PayloadTooLong),
            is_hex_of(address@, 12) && is_hex_of(data_id@, 8) && data@.len() <= 251 ==> r is Ok
                && r->Ok_0@ == write_frame(address@, data_id@, data@) && is_frame(r->Ok_0@)
                && checksum(r->Ok_0@.subrange(0, r->Ok_0@.len() - 2)) == r->Ok_0@[r->Ok_0@.len()
                - 2],
    {
        let address_bytes = match self.parse_address(address) {
            Ok(b) => b,
            Err(e) => {
                return Err(e);
            },
        };
        let data_id_bytes = match self.parse_data_id(data_id) {
            Ok(b) => b,
            Err(e) => {
                return Err(e);
            },
        };
        if data.len() > 251 {
            return Err(BuildError::PayloadTooLong);
        }
        let mut field = FrameFun::frame_add_33h(data_id_bytes.as_slice());
        let mut payload = FrameFun::frame_add_33h(data);
        field.append(&mut payload);
        assert(field@ =~= add_bias(wire_bytes(data_id@)) + add_bias(data@));
        proof {
            lemma_envelope(address_bytes@, 0x14, field@);
        }
        Ok(Self::frame_around(address_bytes.as_slice(), 0x14, field.as_slice()))
    }

    /// The frame that asks every meter for its address; see
    /// [`read_address_frame`].
    pub fn build_read_address_frame(&self) -> (r: Result<Vec<u8>, BuildError>)
        ensures
            r is Ok,
            r->Ok_0@ == read_address_frame(),
            is_frame(r->Ok_0@),
    {
        let mut address: Vec<u8> = Vec::new();
        let mut i: usize = 0;
        while i < 6
            invariant
                i <= 6,
                address@.len() == i,
                forall|j: int| 0 <= j < i ==> address@[j] == 0xAA,
            decreases 6 - i,
        {
            address.push(0xAA);
            i += 1;
        }
        assert(address@ =~= seq![0xAAu8, 0xAA, 0xAA, 0xAA, 0xAA, 0xAA]);
        let data: Vec<u8> = Vec::new();
        assert(data@ =~= Seq::<u8>::empty());
        proof {
            lemma_envelope(address@, 0x13, data@);
        }
        Ok(Self::frame_around(address.as_slice(), 0x13, data.as_slice()))
    }

    /// The frame for a request as it is decoded from its JSON form; see
    /// [`built_frame`].
    pub fn build_from_json(&self, request: &BuildRequest) -> (r: Result<Vec<u8>, BuildError>)
        ensures
            match r {
                Ok(frame) => built_frame(*request) == Ok::<Seq<u8>, BuildError>(frame@),
                Err(e) => built_frame(*request) == Err::<Seq<u8>, BuildError>(e),
            },
    {
        match request {
            BuildRequest::ReadData { address, data_id } => self.build_read_data_frame(
                address.as_str(),
                data_id.as_str(),
            ),
            BuildRequest::WriteData { address, data_id, data } => self.build_write_data_frame(
                address.as_str(),
                data_id.as_str(),
                data.as_slice(),
            ),
            BuildRequest::ReadAddress => self.build_read_address_frame(),
        }
    }

    /// The request that an operation names, of the values that came with
    /// it: `read_data` reads the item `data_id` of the meter `address`,
    /// `write_data` writes `data` to it, and `read_address` asks every meter
    /// for its address and uses none of the values. Any other operation is
    /// `Unsupported`.
    pub fn request_of(operation: &str, address: &str, data_id: &str, data: &[u8]) -> (r: Result<
        BuildRequest,
        BuildError,
    >)
        ensures
            if operation@ == "read_data"@ {
                r matches Ok(BuildRequest::ReadData { address: a, data_id: d }) && a@ == address@
                    && d@ == data_id@
            } else if operation@ == "write_data"@ {
                r matches Ok(BuildRequest::WriteData { address: a, data_id: d, data: v }) && a@
                    == address@ && d@ == data_id@ && v@ == data@
            } else if operation@ == "read_address"@ {
                r matches Ok(BuildRequest::ReadAddress)
            } else {
                r == Err::<BuildRequest, BuildError>(BuildError::Unsupported)
            },
    {
        if same_text(operation, "read_data") {
            Ok(
                BuildRequest::ReadData {
                    address: String::from_str(address),
                    data_id: String::from_str(data_id),
                },
            )
        } else if same_text(operation, "write_data") {
            Ok(
                BuildRequest::WriteData {
                    address: String::from_str(address),
                    data_id: String::from_str(data_id),
                    data: FrameFun::copy_bytes(data),
                },
            )
        } else if same_text(operation, "read_address") {
            Ok(BuildRequest::ReadAddress)
        } else {
            Err(BuildError::Unsupported)
        }
    }
}

/// The frame that a message describes: an address of twelve and a data
/// identifier of eight hexadecimal digits, a control code, and data as
/// hexadecimal digit pairs; spaces in the three texts are set aside. The
/// identifier and the data travel biased behind each other.
pub open spec fn message_frame(
    address: Seq<char>,
    control: u8,
    data_identifier: Seq<char>,
    data: Seq<char>,
) -> Result<Seq<u8>, BuildError> {
    let a = without_char(address, ' ');
    let d = without_char(data, ' ');
    let i = without_char(data_identifier, ' ');
    if !is_hex_of(a, 12) {
        Err(BuildError::InvalidAddress)
    } else if d.len() % 2 != 0 || !all_hex(d) {
        Err(BuildError::InvalidData)
    } else if !is_hex_of(i, 8) {
        Err(BuildError::InvalidIdentifier)
    } else if d.len() / 2 > 251 {
        Err(BuildError::PayloadTooLong)
    } else {
        Ok(envelope(wire_bytes(a), control, add_bias(wire_bytes(i)) + add_bias(hex_bytes(d))))
    }
}

/// The reader of what DLT/645-2007 frames carry.
pub struct DLT645Parser;

impl DLT645Parser {
    /// Whether the buffer is one DLT/645 frame.
    pub fn validate_frame(data: &[u8]) -> (valid: bool)
        ensures
            valid == is_frame(data@),
    {
        Frame645::is_dlt645_frame(data)
    }

    /// The frame checksum: the sum of the bytes modulo 256.
    pub fn calculate_checksum(data: &[u8]) -> (sum: u8)
        ensures
            sum == checksum(data@),
    {
        FrameFun::calculate_cs(data)
    }

    /// The address of six bytes at `start_pos`, most significant byte first,
    /// in hexadecimal, or `None` where the data ends before it.
    pub fn parse_address(data: &[u8], start_pos: usize) -> (r: Option<String>)
        ensures
            match r {
                Some(text) => start_pos + 6 <= data@.len() && text@ == address_text(
                    data@,
                    start_pos as int,
                ),
                None => start_pos + 6 > data@.len(),
            },
    {
        if data.len() < 6 || start_pos > data.len() - 6 {
            return None;
        }
        Some(FrameFun::get_data_str_reverser(slice_subrange(data, start_pos, start_pos + 6)))
    }

    /// The identifier of four bytes at `start_pos`, most significant byte
    /// first, in hexadecimal, or `None` where the data ends before it.
    pub fn parse_data_identifier(data: &[u8], start_pos: usize) -> (r: Option<String>)
        ensures
            match r {
                Some(text) => start_pos + 4 <= data@.len() && text@ == identifier_text(
                    data@,
                    start_pos as int,
                ),
                None => start_pos + 4 > data@.len(),
            },
    {
        if data.len() < 4 || start_pos > data.len() - 4 {
            return None;
        }
        Some(FrameFun::get_data_str_reverser(slice_subrange(data, start_pos, start_pos + 4)))
    }

    /// `length` bytes of a data field at `start_pos` without the bias, or
    /// `None` where the data ends before them.
    pub fn parse_data_field(data: &[u8], start_pos: usize, length: usize) -> (r: Option<Vec<u8>>)
        ensures
            match r {
                Some(bytes) => start_pos + length <= data@.len() && bytes@ == strip_bias(
                    data@.subrange(start_pos as int, start_pos + length),
                ),
                None => start_pos + length > data@.len(),
            },
    {
        if start_pos > data.len() || length > data.len() - start_pos {
            return None;
        }
        Some(FrameFun::frame_delete_33h(slice_subrange(data, start_pos, start_pos + length)))
    }

    /// The bytes of an address given as text, spaces set aside, the last
    /// pair of digits first.
    pub fn parse_address_str(address: &str) -> (r: Result<Vec<u8>, BuildError>)
        ensures
            match r {
                Ok(bytes) => is_hex_of(without_char(address@, ' '), 12) && bytes@ == wire_bytes(
                    without_char(address@, ' '),
                ),
                Err(e) => e == BuildError::InvalidAddress && !is_hex_of(
                    without_char(address@, ' '),
                    12,
                ),
            },
    {
        let cleaned = string_of(&chars_without(&chars_of(address), ' '));
        match DLT645Builder::wire_bytes_of(cleaned.as_str(), 6) {
            Some(bytes) => Ok(bytes),
            None => Err(BuildError::InvalidAddress),
        }
    }

    /// The bytes of a data identifier given as text, spaces set aside, the
    /// last pair of digits first.
    pub fn parse_data_identifier_str(data_id: &str) -> (r: Result<Vec<u8>, BuildError>)
        ensures
            match r {
                Ok(bytes) => is_hex_of(without_char(data_id@, ' '), 8) && bytes@ == wire_bytes(
                    without_char(data_id@, ' '),
                ),
                Err(e) => e == BuildError::InvalidIdentifier && !is_hex_of(
                    without_char(data_id@, ' '),
                    8,
                ),
            },
    {
        let cleaned = string_of(&chars_without(&chars_of(data_id), ' '));
        match DLT645Builder::wire_bytes_of(cleaned.as_str(), 4) {
            Some(bytes) => Ok(bytes),
            None => Err(BuildError::InvalidIdentifier),
        }
    }

    /// The bytes of data given as pairs of hexadecimal digits, spaces set
    /// aside, in the order of the text.
    pub fn parse_data_str(data: &str) -> (r: Result<Vec<u8>, BuildError>)
        ensures
            match r {
                Ok(bytes) => without_char(data@, ' ').len() % 2 == 0 && all_hex(
                    without_char(data@, ' '),
                ) && bytes@ == hex_bytes(without_char(data@, ' ')),
                Err(e) => e == BuildError::InvalidData && !(without_char(data@, ' ').len() % 2 == 0
                    && all_hex(without_char(data@, ' '))),
            },
    {
        let cleaned = chars_without(&chars_of(data), ' ');
        match FrameFun::hex_bytes_of(&cleaned) {
            Ok(bytes) => Ok(bytes),
            Err(_) => Err(BuildError::InvalidData),
        }
    }

    /// The frame that a message describes; see [`message_frame`].
    pub fn build(address: &str, function_code: u8, data_identifier: &str, data: &str) -> (r: Result<
        Vec<u8>,
        BuildError,
    >)
        ensures
            match r {
                Ok(frame) => message_frame(address@, function_code, data_identifier@, data@)
                    == Ok::<Seq<u8>, BuildError>(frame@),
                Err(e) => message_frame(address@, function_code, data_identifier@, data@) == Err::<
                    Seq<u8>,
                    BuildError,
                >(e),
            },
    {
        let address_bytes = match Self::parse_address_str(address) {
            Ok(b) => b,
            Err(e) => {
                return Err(e);
            },
        };
        let data_bytes = match Self::parse_data_str(data) {
            Ok(b) => b,
            Err(e) => {
                return Err(e);
            },
        };
        let id_bytes = match Self::parse_data_identifier_str(data_identifier) {
            Ok(b) => b,
            Err(e) => {
                return Err(e);
            },
        };
        if data_bytes.len() > 251 {
            return Err(BuildError::PayloadTooLong);
        }
        let mut field = FrameFun::frame_add_33h(id_bytes.as_slice());
        let mut payload = FrameFun::frame_add_33h(data_bytes.as_slice());
        field.append(&mut payload);
        assert(field@ =~= add_bias(id_bytes@) + add_bias(data_bytes@));
        Ok(DLT645Builder::frame_around(address_bytes.as_slice(), function_code, field.as_slice()))
    }

    /// What a read request asks for; see [`read_request`].
    pub fn read_request_of(frame: &[u8]) -> (r: Option<(String, String)>)
        ensures
            match r {
                Some(asked) => read_request(frame@) == Some((asked.0@, asked.1@)),
                None => read_request(frame@) is None,
            },
    {
        if !Frame645::is_dlt645_frame(frame) {
            return None;
        }
        if FrameFun::get_frame_fe_count(frame) != 0 || frame[8] != 0x11 || frame[9] != 4 {
            return None;
        }
        let address = match Self::parse_address(frame, 1) {
            Some(a) => a,
            None => {
                return None;
            },
        };
        let plain = match Self::parse_data_field(frame, 10, 4) {
            Some(p) => p,
            None => {
                return None;
            },
        };
        match Self::parse_data_identifier(plain.as_slice(), 0) {
            Some(id) => Some((address, id)),
            None => None,
        }
    }
}

} // verus!
