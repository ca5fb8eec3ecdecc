//! Reading Modbus responses in RTU and TCP framing.

use crate::frame_fun::pow2_u8;
use crate::modbus::{crc16, framing_of, Framing, ModbusBuilder};
use crate::text::same_text;
use vstd::prelude::*;
use vstd::slice::slice_subrange;

verus! {

/// Why a response could not be read.
#[derive(Debug, Clone, Copy, PartialEq, Eq, Structural)]
pub enum ModbusError {
    /// The frame is shorter than the smallest frame of its framing.
    FrameTooShort,
    /// The CRC of the frame is not the one computed over it.
    CrcMismatch { expected: u16, got: u16 },
    /// The protocol identifier of a TCP frame is not 0.
    BadProtocol(u16),
    /// The length that a TCP frame declares is not the number of bytes that
    /// follow it.
    LengthMismatch,
    /// The payload is empty where it must hold a byte count.
    EmptyPayload,
    /// The payload is shorter than its layout.
    PayloadTooShort,
    /// An exception response without an exception code.
    InvalidException,
    /// A function code that is not read here.
    UnsupportedFunction(u8),
    /// A mode other than `rtu` and `tcp`.
    UnsupportedMode,
}

/// What a response carries.
pub enum ModbusPayload {
    Bits { byte_count: usize, bits: Vec<bool> },
    Registers { byte_count: usize, registers: Vec<u16> },
    SingleCoil { address: u16, state: bool },
    SingleRegister { address: u16, value: u16 },
    MultipleCoils { address: u16, quantity: u16 },
    MultipleRegisters { address: u16, quantity: u16 },
    Exception { function_code: u8, exception_code: u8 },
}

/// What a [`ModbusPayload`] holds, as mathematical values.
pub enum PayloadModel {
    Bits { byte_count: int, bits: Seq<bool> },
    Registers { byte_count: int, registers: Seq<u16> },
    SingleCoil { address: u16, state: bool },
    SingleRegister { address: u16, value: u16 },
    MultipleCoils { address: u16, quantity: u16 },
    MultipleRegisters { address: u16, quantity: u16 },
    Exception { function_code: u8, exception_code: u8 },
}

impl View for ModbusPayload {
    type V = PayloadModel;

    open spec fn view(&self) -> PayloadModel {
        match self {
            ModbusPayload::Bits { byte_count, bits } => PayloadModel::Bits {
                byte_count: *byte_count as int,
                bits: bits@,
            },
            ModbusPayload::Registers { byte_count, registers } => PayloadModel::Registers {
                byte_count: *byte_count as int,
                registers: registers@,
            },
            ModbusPayload::SingleCoil { address, state } => PayloadModel::SingleCoil {
                address: *address,
                state: *state,
            },
            ModbusPayload::SingleRegister { address, value } => PayloadModel::SingleRegister {
                address: *address,
                value: *value,
            },
            ModbusPayload::MultipleCoils { address, quantity } => PayloadModel::MultipleCoils {
                address: *address,
                quantity: *quantity,
            },
            ModbusPayload::MultipleRegisters { address, quantity } => PayloadModel::MultipleRegisters {
                address: *address,
                quantity: *quantity,
            },
            ModbusPayload::Exception { function_code, exception_code } => PayloadModel::Exception {
                function_code: *function_code,
                exception_code: *exception_code,
            },
        }
    }
}

/// The 16-bit number of two bytes, the high byte first.
pub open spec fn word(hi: u8, lo: u8) -> u16 {
    (hi * 256 + lo) as u16
}

/// The bits of the bytes behind the byte count, the lowest bit of each byte
/// first.
pub open spec fn payload_bits(payload: Seq<u8>) -> Seq<bool> {
    Seq::new(
        (payload[0] * 8) as nat,
        |k: int| (payload[k / 8 + 1] / pow2_u8(k % 8)) % 2 == 1,
    )
}

/// The registers of the bytes behind the byte count, two bytes each.
pub open spec fn payload_registers(payload: Seq<u8>) -> Seq<u16> {
    Seq::new((payload[0] / 2) as nat, |i: int| word(payload[2 * i + 1], payload[2 * i + 2]))
}

/// What the payload of a response with the given function code carries.
/// Reads answer with a byte count and that many bytes; writes echo an
/// address and a value or a quantity; a function code with its top bit set
/// is an exception with a code.
pub open spec fn payload_of(function_code: u8, payload: Seq<u8>) -> Result<
    PayloadModel,
    ModbusError,
> {
    if 1 <= function_code <= 4 {
        if payload.len() == 0 {
            Err(ModbusError::EmptyPayload)
        } else if payload.len() < payload[0] + 1 {
            Err(ModbusError::PayloadTooShort)
        } else if function_code <= 2 {
            Ok(PayloadModel::Bits { byte_count: payload[0] as int, bits: payload_bits(payload) })
        } else {
            Ok(
                PayloadModel::Registers {
                    byte_count: payload[0] as int,
                    registers: payload_registers(payload),
                },
            )
        }
    } else if function_code == 0x05 || function_code == 0x06 || function_code == 0x0F
        || function_code == 0x10 {
        if payload.len() < 4 {
            Err(ModbusError::PayloadTooShort)
        } else {
            let address = word(payload[0], payload[1]);
            let value = word(payload[2], payload[3]);
            if function_code == 0x05 {
                Ok(PayloadModel::SingleCoil { address, state: value == 0xFF00 })
            } else if function_code == 0x06 {
                Ok(PayloadModel::SingleRegister { address, value })
            } else if function_code == 0x0F {
                Ok(PayloadModel::MultipleCoils { address, quantity: value })
            } else {
                Ok(PayloadModel::MultipleRegisters { address, quantity: value })
            }
        }
    } else if function_code >= 128 {
        if payload.len() < 1 {
            Err(ModbusError::InvalidException)
        } else {
            Ok(
                PayloadModel::Exception {
                    function_code: (function_code - 128) as u8,
                    exception_code: payload[0],
                },
            )
        }
    } else {
        Err(ModbusError::UnsupportedFunction(function_code))
    }
}

/// A response in RTU framing.
pub struct RtuMessage {
    pub unit_id: u8,
    pub function_code: u8,
    pub payload: ModbusPayload,
}

/// A response in TCP framing.
pub struct TcpMessage {
    pub transaction_id: u16,
    pub protocol_id: u16,
    pub length: u16,
    pub unit_id: u8,
    pub function_code: u8,
    pub payload: ModbusPayload,
}

/// The CRC that an RTU frame carries in its last two bytes, low byte first.
pub open spec fn carried_crc(data: Seq<u8>) -> u16 {
    word(data[data.len() - 1], data[data.len() - 2])
}

/// Whether a buffer is an RTU frame: at least four bytes, the last two the
/// CRC of those before them.
pub open spec fn is_rtu_frame(data: Seq<u8>) -> bool {
    data.len() >= 4 && carried_crc(data) == crc16(data.subrange(0, data.len() - 2))
}

/// Whether a buffer is a TCP frame: at least eight bytes, the protocol 0,
/// the declared length that of what follows it.
pub open spec fn is_tcp_frame(data: Seq<u8>) -> bool {
    data.len() >= 8 && word(data[2], data[3]) == 0 && data.len() - 6 == word(data[4], data[5])
}

/// The reader of Modbus responses.
pub struct ModbusParser {
    pub mode: String,
}

impl ModbusParser {
    /// A reader in the mode `rtu`.
    pub fn new() -> (p: ModbusParser)
        ensures
            p.mode@ == "rtu"@,
    {
        ModbusParser { mode: String::from_str("rtu") }
    }

    /// The CRC of Modbus RTU over the bytes.
    pub fn calculate_crc(data: &[u8]) -> (crc: u16)
        ensures
            crc == crc16(data@),
    {
        ModbusBuilder::calculate_crc(data)
    }

    /// The 16-bit number of two bytes, the high byte first.
    pub fn word_of(hi: u8, lo: u8) -> (w: u16)
        ensures
            w == word(hi, lo),
    {
        hi as u16 * 256 + lo as u16
    }

    /// The bits that a read of bits answers with.
    pub fn parse_read_bits_response(payload: &[u8]) -> (r: Result<ModbusPayload, ModbusError>)
        ensures
            match r {
                Ok(p) => payload_of(0x01, payload@) == Ok::<PayloadModel, ModbusError>(p@),
                Err(e) => payload_of(0x01, payload@) == Err::<PayloadModel, ModbusError>(e),
            },
    {
        if payload.len() == 0 {
            return Err(ModbusError::EmptyPayload);
        }
        let byte_count = payload[0] as usize;
        if payload.len() < byte_count + 1 {
            return Err(ModbusError::PayloadTooShort);
        }
        let mut bits: Vec<bool> = Vec::new();
        let mut i: usize = 0;
        while i < byte_count
            invariant
                i <= byte_count,
                byte_count == payload@[0],
                payload@.len() >= byte_count + 1,
                bits@.len() == 8 * i,
                forall|k: int| 0 <= k < 8 * i ==> bits@[k] == payload_bits(payload@)[k],
            decreases byte_count - i,
        {
            let byte = payload[i + 1];
            bits.push(byte % 2 == 1);
            bits.push((byte / 2) % 2 == 1);
            bits.push((byte / 4) % 2 == 1);
            bits.push((byte / 8) % 2 == 1);
            bits.push((byte / 16) % 2 == 1);
            bits.push((byte / 32) % 2 == 1);
            bits.push((byte / 64) % 2 == 1);
            bits.push((byte / 128) % 2 == 1);
            i += 1;
        }
        assert(bits@ =~= payload_bits(payload@));
        Ok(ModbusPayload::Bits { byte_count, bits })
    }

    /// The registers that a read of registers answers with.
    pub fn parse_read_registers_response(payload: &[u8]) -> (r: Result<ModbusPayload, ModbusError>)
        ensures
            match r {
                Ok(p) => payload_of(0x03, payload@) == Ok::<PayloadModel, ModbusError>(p@),
                Err(e) => payload_of(0x03, payload@) == Err::<PayloadModel, ModbusError>(e),
            },
    {
        if payload.len() == 0 {
            return Err(ModbusError::EmptyPayload);
        }
        let byte_count = payload[0] as usize;
        if payload.len() < byte_count + 1 {
            return Err(ModbusError::PayloadTooShort);
        }
        let mut registers: Vec<u16> = Vec::new();
        let mut i: usize = 0;
        while i < byte_count / 2
            invariant
                i <= byte_count / 2,
                byte_count == payload@[0],
                payload@.len() >= byte_count + 1,
                registers@.len() == i,
                forall|k: int| 0 <= k < i ==> registers@[k] == payload_registers(payload@)[k],
            decreases byte_count / 2 - i,
        {
            registers.push(Self::word_of(payload[i * 2 + 1], payload[i * 2 + 2]));
            i += 1;
        }
        assert(registers@ =~= payload_registers(payload@));
        Ok(ModbusPayload::Registers { byte_count, registers })
    }

    /// The address and the state that a write of one coil echoes.
    pub fn parse_write_single_coil_response(payload: &[u8]) -> (r: Result<
        ModbusPayload,
        ModbusError,
    >)
        ensures
            match r {
                Ok(p) => payload_of(0x05, payload@) == Ok::<PayloadModel, ModbusError>(p@),
                Err(e) => payload_of(0x05, payload@) == Err::<PayloadModel, ModbusError>(e),
            },
    {
        if payload.len() < 4 {
            return Err(ModbusError::PayloadTooShort);
        }
        let address = Self::word_of(payload[0], payload[1]);
        let value = Self::word_of(payload[2], payload[3]);
        Ok(ModbusPayload::SingleCoil { address, state: value == 0xFF00 })
    }

    /// The address and the value that a write of one register echoes.
    pub fn parse_write_single_register_response(payload: &[u8]) -> (r: Result<
        ModbusPayload,
        ModbusError,
    >)
        ensures
            match r {
                Ok(p) => payload_of(0x06, payload@) == Ok::<PayloadModel, ModbusError>(p@),
                Err(e) => payload_of(0x06, payload@) == Err::<PayloadModel, ModbusError>(e),
            },
    {
        if payload.len() < 4 {
            return Err(ModbusError::PayloadTooShort);
        }
        let address = Self::word_of(payload[0], payload[1]);
        let value = Self::word_of(payload[2], payload[3]);
        Ok(ModbusPayload::SingleRegister { address, value })
    }

    /// The address and the quantity that a write of coils echoes.
    pub fn parse_write_multiple_coils_response(payload: &[u8]) -> (r: Result<
        ModbusPayload,
        ModbusError,
    >)
        ensures
            match r {
                Ok(p) => payload_of(0x0F, payload@) == Ok::<PayloadModel, ModbusError>(p@),
                Err(e) => payload_of(0x0F, payload@) == Err::<PayloadModel, ModbusError>(e),
            },
    {
        if payload.len() < 4 {
            return Err(ModbusError::PayloadTooShort);
        }
        let address = Self::word_of(payload[0], payload[1]);
        let quantity = Self::word_of(payload[2], payload[3]);
        Ok(ModbusPayload::MultipleCoils { address, quantity })
    }

    /// The address and the quantity that a write of registers echoes.
    pub fn parse_write_multiple_registers_response(payload: &[u8]) -> (r: Result<
        ModbusPayload,
        ModbusError,
    >)
        ensures
            match r {
                Ok(p) => payload_of(0x10, payload@) == Ok::<PayloadModel, ModbusError>(p@),
                Err(e) => payload_of(0x10, payload@) == Err::<PayloadModel, ModbusError>(e),
            },
    {
        if payload.len() < 4 {
            return Err(ModbusError::PayloadTooShort);
        }
        let address = Self::word_of(payload[0], payload[1]);
        let quantity = Self::word_of(payload[2], payload[3]);
        Ok(ModbusPayload::MultipleRegisters { address, quantity })
    }

    /// What the payload of a response carries; see [`payload_of`].
    pub fn parse_payload(function_code: u8, payload: &[u8]) -> (r: Result<ModbusPayload, ModbusError>)
        ensures
            match r {
                Ok(p) => payload_of(function_code, payload@) == Ok::<PayloadModel, ModbusError>(
                    p@,
                ),
                Err(e) => payload_of(function_code, payload@) == Err::<PayloadModel, ModbusError>(
                    e,
                ),
            },
    {
        if function_code == 0x01 || function_code == 0x02 {
            Self::parse_read_bits_response(payload)
        } else if function_code == 0x03 || function_code == 0x04 {
            Self::parse_read_registers_response(payload)
        } else if function_code == 0x05 {
            Self::parse_write_single_coil_response(payload)
        } else if function_code == 0x06 {
            Self::parse_write_single_register_response(payload)
        } else if function_code == 0x0F {
            Self::parse_write_multiple_coils_response(payload)
        } else if function_code == 0x10 {
            Self::parse_write_multiple_registers_response(payload)
        } else if function_code >= 128 {
            if payload.len() < 1 {
                Err(ModbusError::InvalidException)
            } else {
                Ok(
                    ModbusPayload::Exception {
                        function_code: function_code - 128,
                        exception_code: payload[0],
                    },
                )
            }
        } else {
            Err(ModbusError::UnsupportedFunction(function_code))
        }
    }

    /// A response in RTU framing: unit, function code, payload, CRC. A
    /// frame of fewer than four bytes is `FrameTooShort`; one whose CRC is
    /// not the one computed over it is `CrcMismatch`.
    pub fn parse_rtu(data: &[u8]) -> (r: Result<RtuMessage, ModbusError>)
        ensures
            data@.len() < 4 ==> r is Err && r->Err_0 == ModbusError::FrameTooShort,
            data@.len() >= 4 && !is_rtu_frame(data@) ==> r is Err && r->Err_0 == (
            ModbusError::CrcMismatch {
                expected: crc16(data@.subrange(0, data@.len() - 2)),
                got: carried_crc(data@),
            }),
            is_rtu_frame(data@) ==> (match r {
                Ok(m) => m.unit_id == data@[0] && m.function_code == data@[1] && payload_of(
                    data@[1],
                    data@.subrange(2, data@.len() - 2),
                ) == Ok::<PayloadModel, ModbusError>(m.payload@),
                Err(e) => payload_of(data@[1], data@.subrange(2, data@.len() - 2)) == Err::<
                    PayloadModel,
                    ModbusError,
                >(e),
            }),
    {
        let n = data.len();
        if n < 4 {
            return Err(ModbusError::FrameTooShort);
        }
        let got = Self::word_of(data[n - 1], data[n - 2]);
        let expected = Self::calculate_crc(slice_subrange(data, 0, n - 2));
        if got != expected {
            return Err(ModbusError::CrcMismatch { expected, got });
        }
        match Self::parse_payload(data[1], slice_subrange(data, 2, n - 2)) {
            Ok(payload) => Ok(RtuMessage { unit_id: data[0], function_code: data[1], payload }),
            Err(e) => Err(e),
        }
    }

    /// A response in TCP framing: transaction, protocol, length, unit,
    /// function code, payload. A frame of fewer than eight bytes is
    /// `FrameTooShort`; a protocol other than 0 is `BadProtocol`; a declared
    /// length other than that of what follows it is `LengthMismatch`.
    pub fn parse_tcp(data: &[u8]) -> (r: Result<TcpMessage, ModbusError>)
        ensures
            data@.len() < 8 ==> r is Err && r->Err_0 == ModbusError::FrameTooShort,
            data@.len() >= 8 && word(data@[2], data@[3]) != 0 ==> r is Err && r->Err_0
                == ModbusError::BadProtocol(word(data@[2], data@[3])),
            data@.len() >= 8 && word(data@[2], data@[3]) == 0 && !is_tcp_frame(data@) ==> r is Err
                && r->Err_0 == ModbusError::LengthMismatch,
            is_tcp_frame(data@) ==> (match r {
                Ok(m) => m.transaction_id == word(data@[0], data@[1]) && m.protocol_id == 0
                    && m.length == word(data@[4], data@[5]) && m.unit_id == data@[6]
                    && m.function_code == data@[7] && payload_of(
                    data@[7],
                    data@.subrange(8, data@.len() as int),
                ) == Ok::<PayloadModel, ModbusError>(m.payload@),
                Err(e) => payload_of(data@[7], data@.subrange(8, data@.len() as int)) == Err::<
                    PayloadModel,
                    ModbusError,
                >(e),
            }),
    {
        let n = data.len();
        if n < 8 {
            return Err(ModbusError::FrameTooShort);
        }
        let transaction_id = Self::word_of(data[0], data[1]);
        let protocol_id = Self::word_of(data[2], data[3]);
        let length = Self::word_of(data[4], data[5]);
        if protocol_id != 0 {
            return Err(ModbusError::BadProtocol(protocol_id));
        }
        if n - 6 != length as usize {
            return Err(ModbusError::LengthMismatch);
        }
        match Self::parse_payload(data[7], slice_subrange(data, 8, n)) {
            Ok(payload) => Ok(
                TcpMessage {
                    transaction_id,
                    protocol_id,
                    length,
                    unit_id: data[6],
                    function_code: data[7],
                    payload,
                },
            ),
            Err(e) => Err(e),
        }
    }

    /// Whether the buffer is a frame in the mode of the reader; a mode
    /// other than `rtu` and `tcp` is `UnsupportedMode`.
    pub fn validate(&self, data: &[u8]) -> (r: Result<bool, ModbusError>)
        ensures
            match framing_of(self.mode@) {
                Some(Framing::Rtu) => r == Ok::<bool, ModbusError>(is_rtu_frame(data@)),
                Some(Framing::Tcp) => r == Ok::<bool, ModbusError>(is_tcp_frame(data@)),
                None => r == Err::<bool, ModbusError>(ModbusError::UnsupportedMode),
            },
    {
        let n = data.len();
        if same_text(self.mode.as_str(), "rtu") {
            if n < 4 {
                return Ok(false);
            }
            let got = Self::word_of(data[n - 1], data[n - 2]);
            let expected = Self::calculate_crc(slice_subrange(data, 0, n - 2));
            Ok(got == expected)
        } else if same_text(self.mode.as_str(), "tcp") {
            if n < 8 {
                return Ok(false);
            }
            let protocol_id = Self::word_of(data[2], data[3]);
            let length = Self::word_of(data[4], data[5]);
            Ok(protocol_id == 0 && n - 6 == length as usize)
        } else {
            Err(ModbusError::UnsupportedMode)
        }
    }
}

} // verus!
