//! Building Modbus requests in RTU and TCP framing.

use crate::error::BuildError;
use crate::frame_fun::pow2_u8;
use crate::text::same_text;
use vstd::prelude::*;

verus! {

/// The function codes of the requests that are built.
#[derive(Debug, Clone, Copy, PartialEq, Eq, Structural)]
pub enum ModbusFunctionCode {
    ReadCoils,
    ReadDiscreteInputs,
    ReadHoldingRegisters,
    ReadInputRegisters,
    WriteSingleCoil,
    WriteSingleRegister,
    WriteMultipleCoils,
    WriteMultipleRegisters,
}

/// The byte of a function code.
pub open spec fn function_byte(code: ModbusFunctionCode) -> u8 {
    match code {
        ModbusFunctionCode::ReadCoils => 0x01,
        ModbusFunctionCode::ReadDiscreteInputs => 0x02,
        ModbusFunctionCode::ReadHoldingRegisters => 0x03,
        ModbusFunctionCode::ReadInputRegisters => 0x04,
        ModbusFunctionCode::WriteSingleCoil => 0x05,
        ModbusFunctionCode::WriteSingleRegister => 0x06,
        ModbusFunctionCode::WriteMultipleCoils => 0x0F,
        ModbusFunctionCode::WriteMultipleRegisters => 0x10,
    }
}

/// The byte of a function code.
pub fn function_code_byte(code: ModbusFunctionCode) -> (b: u8)
    ensures
        b == function_byte(code),
{
    match code {
        ModbusFunctionCode::ReadCoils => 0x01,
        ModbusFunctionCode::ReadDiscreteInputs => 0x02,
        ModbusFunctionCode::ReadHoldingRegisters => 0x03,
        ModbusFunctionCode::ReadInputRegisters => 0x04,
        ModbusFunctionCode::WriteSingleCoil => 0x05,
        ModbusFunctionCode::WriteSingleRegister => 0x06,
        ModbusFunctionCode::WriteMultipleCoils => 0x0F,
        ModbusFunctionCode::WriteMultipleRegisters => 0x10,
    }
}

/// One step of the CRC of Modbus RTU: a shift to the right, and the
/// polynomial `0xA001` where a one was shifted out.
pub open spec fn crc_shift(crc: u16) -> u16 {
    if crc & 1 != 0 {
        (crc >> 1) ^ 0xA001
    } else {
        crc >> 1
    }
}

/// `n` steps of the CRC.
pub open spec fn crc_shifts(crc: u16, n: nat) -> u16
    decreases n,
{
    if n == 0 {
        crc
    } else {
        crc_shift(crc_shifts(crc, (n - 1) as nat))
    }
}

/// The CRC of Modbus RTU over the bytes, from the value `0xFFFF`: each byte
/// is added into the low byte, then eight steps follow.
pub open spec fn crc16(data: Seq<u8>) -> u16
    decreases data.len(),
{
    if data.len() == 0 {
        0xFFFF
    } else {
        crc_shifts(crc16(data.drop_last()) ^ (data.last() as u16), 8)
    }
}

/// The high byte of a 16-bit number.
pub open spec fn high(v: u16) -> u8 {
    (v / 256) as u8
}

/// The low byte of a 16-bit number.
pub open spec fn low(v: u16) -> u8 {
    (v % 256) as u8
}

/// The framing of a request.
#[derive(Debug, Clone, Copy, PartialEq, Eq, Structural)]
pub enum Framing {
    Rtu,
    Tcp,
}

/// The framing that a mode names: `rtu` or `tcp`.
pub open spec fn framing_of(mode: Seq<char>) -> Option<Framing> {
    if mode == "rtu"@ {
        Some(Framing::Rtu)
    } else if mode == "tcp"@ {
        Some(Framing::Tcp)
    } else {
        None
    }
}

/// A request around a protocol data unit. RTU puts the unit before it and
/// the CRC of both behind it, low byte first. TCP puts a header before it:
/// transaction, protocol 0, the number of bytes that follow, unit.
pub open spec fn framed(framing: Framing, unit_id: u8, transaction_id: u16, pdu: Seq<u8>) -> Seq<u8> {
    match framing {
        Framing::Rtu => {
            let body = seq![unit_id] + pdu;
            body + seq![low(crc16(body)), high(crc16(body))]
        },
        Framing::Tcp => seq![
            high(transaction_id),
            low(transaction_id),
            0u8,
            0u8,
            high((pdu.len() + 1) as u16),
            low((pdu.len() + 1) as u16),
            unit_id,
        ] + pdu,
    }
}

/// The protocol data unit of a request with an address and one value.
pub open spec fn short_pdu(function: u8, address: u16, value: u16) -> Seq<u8> {
    seq![function, high(address), low(address), high(value), low(value)]
}

/// The protocol data unit of a request that writes several values.
pub open spec fn long_pdu(function: u8, address: u16, quantity: u16, values: Seq<u8>) -> Seq<u8> {
    seq![
        function,
        high(address),
        low(address),
        high(quantity),
        low(quantity),
        values.len() as u8,
    ] + values
}

/// The low `bits` bits of byte `j` of coils packed eight to a byte, the
/// first coil in the lowest bit.
pub open spec fn coil_bits(values: Seq<bool>, j: int, bits: int) -> int
    decreases bits,
{
    if bits <= 0 {
        0
    } else {
        coil_bits(values, j, bits - 1) + (if 8 * j + bits - 1 < values.len() && values[8 * j
            + bits - 1] {
            pow2_u8(bits - 1) as int
        } else {
            0
        })
    }
}

/// Coils packed eight to a byte, the first coil in the lowest bit of the
/// first byte; the last byte is filled with zeros.
pub open spec fn packed_coils(values: Seq<bool>) -> Seq<u8> {
    Seq::new(((values.len() + 7) / 8) as nat, |j: int| coil_bits(values, j, 8) as u8)
}

/// Registers as bytes, the high byte of each first.
pub open spec fn register_bytes(values: Seq<u16>) -> Seq<u8>
    decreases values.len(),
{
    if values.len() == 0 {
        Seq::empty()
    } else {
        register_bytes(values.drop_last()) + seq![high(values.last()), low(values.last())]
    }
}

/// Whether a read request may ask for `quantity` values.
pub open spec fn read_quantity_allowed(function: u8, quantity: u16) -> bool {
    if function == 0x01 || function == 0x02 {
        1 <= quantity <= 2000
    } else if function == 0x03 || function == 0x04 {
        1 <= quantity <= 125
    } else {
        false
    }
}

pub proof fn lemma_coil_bits_bound(values: Seq<bool>, j: int, bits: int)
    requires
        0 <= bits <= 8,
    ensures
        0 <= coil_bits(values, j, bits) < pow2_int(bits),
    decreases bits,
{
    if bits > 0 {
        lemma_coil_bits_bound(values, j, bits - 1);
    }
}

/// Two to the power `n` for `n` in `0..=8`.
pub open spec fn pow2_int(n: int) -> int {
    if n >= 8 {
        256
    } else {
        pow2_u8(n) as int
    }
}

/// What a request is built from.
pub enum ModbusRequest {
    ReadCoils { address: u16, quantity: u16 },
    ReadDiscreteInputs { address: u16, quantity: u16 },
    ReadHoldingRegisters { address: u16, quantity: u16 },
    ReadInputRegisters { address: u16, quantity: u16 },
    WriteSingleCoil { address: u16, state: bool },
    WriteSingleRegister { address: u16, value: u16 },
    WriteMultipleCoils { address: u16, coils: Vec<bool> },
    WriteMultipleRegisters { address: u16, values: Vec<u16> },
}

/// The protocol data unit of a request, or `InvalidQuantity` where it asks
/// for more or fewer values than the protocol allows.
pub open spec fn request_pdu(request: ModbusRequest) -> Result<Seq<u8>, BuildError> {
    match request {
        ModbusRequest::ReadCoils { address, quantity } => if 1 <= quantity <= 2000 {
            Ok(short_pdu(0x01, address, quantity))
        } else {
            Err(BuildError::InvalidQuantity)
        },
        ModbusRequest::ReadDiscreteInputs { address, quantity } => if 1 <= quantity <= 2000 {
            Ok(short_pdu(0x02, address, quantity))
        } else {
            Err(BuildError::InvalidQuantity)
        },
        ModbusRequest::ReadHoldingRegisters { address, quantity } => if 1 <= quantity <= 125 {
            Ok(short_pdu(0x03, address, quantity))
        } else {
            Err(BuildError::InvalidQuantity)
        },
        ModbusRequest::ReadInputRegisters { address, quantity } => if 1 <= quantity <= 125 {
            Ok(short_pdu(0x04, address, quantity))
        } else {
            Err(BuildError::InvalidQuantity)
        },
        ModbusRequest::WriteSingleCoil { address, state } => Ok(
            short_pdu(
                0x05,
                address,
                if state {
                    0xFF00
                } else {
                    0x0000
                },
            ),
        ),
        ModbusRequest::WriteSingleRegister { address, value } => Ok(
            short_pdu(0x06, address, value),
        ),
        ModbusRequest::WriteMultipleCoils { address, coils } => if 1 <= coils@.len() <= 1968 {
            Ok(long_pdu(0x0F, address, coils@.len() as u16, packed_coils(coils@)))
        } else {
            Err(BuildError::InvalidQuantity)
        },
        ModbusRequest::WriteMultipleRegisters { address, values } => if 1 <= values@.len() <= 123 {
            Ok(long_pdu(0x10, address, values@.len() as u16, register_bytes(values@)))
        } else {
            Err(BuildError::InvalidQuantity)
        },
    }
}

/// The request that a builder builds: the protocol data unit in the framing
/// of the builder; a mode that names no framing is `Unsupported`.
pub open spec fn built_request(
    mode: Seq<char>,
    unit_id: u8,
    transaction_id: u16,
    request: ModbusRequest,
) -> Result<Seq<u8>, BuildError> {
    match request_pdu(request) {
        Err(e) => Err(e),
        Ok(pdu) => match framing_of(mode) {
            Some(framing) => Ok(framed(framing, unit_id, transaction_id, pdu)),
            None => Err(BuildError::Unsupported),
        },
    }
}

/// The builder of Modbus requests for one unit.
pub struct ModbusBuilder {
    pub unit_id: u8,
    pub mode: String,
    pub transaction_id: u16,
}

impl ModbusBuilder {
    /// A builder for the unit `unit_id` in the mode `mode`, `rtu` or `tcp`,
    /// with the transaction 1.
    pub fn new(unit_id: u8, mode: &str) -> (b: ModbusBuilder)
        ensures
            b.unit_id == unit_id,
            b.mode@ == mode@,
            b.transaction_id == 1,
    {
        ModbusBuilder { unit_id, mode: String::from_str(mode), transaction_id: 1 }
    }

    /// The builder with another transaction, which TCP framing carries.
    pub fn with_transaction_id(self, transaction_id: u16) -> (b: ModbusBuilder)
        ensures
            b.unit_id == self.unit_id,
            b.mode@ == self.mode@,
            b.transaction_id == transaction_id,
    {
        ModbusBuilder { unit_id: self.unit_id, mode: self.mode, transaction_id }
    }

    /// The CRC of Modbus RTU over the bytes; see [`crc16`].
    pub fn calculate_crc(data: &[u8]) -> (crc: u16)
        ensures
            crc == crc16(data@),
    {
        let mut crc: u16 = 0xFFFF;
        let mut i: usize = 0;
        assert(data@.take(0) =~= Seq::<u8>::empty());
        while i < data.len()
            invariant
                i <= data.len(),
                crc == crc16(data@.take(i as int)),
            decreases data.len() - i,
        {
            proof {
                assert(data@.take(i + 1).drop_last() =~= data@.take(i as int));
            }
            crc = crc ^ (data[i] as u16);
            let ghost start = crc;
            let mut k: u8 = 0;
            while k < 8
                invariant
                    k <= 8,
                    crc == crc_shifts(start, k as nat),
                decreases 8 - k,
            {
                if (crc & 0x0001) != 0 {
                    crc = (crc >> 1) ^ 0xA001;
                } else {
                    crc = crc >> 1;
                }
                k += 1;
            }
            i += 1;
        }
        assert(data@.take(i as int) =~= data@);
        crc
    }

    /// The request around a protocol data unit; see [`framed`]. A unit of
    /// 65535 bytes or more does not fit the length of a TCP header and is
    /// `PayloadTooLong`; a mode other than `rtu` and `tcp` is `Unsupported`.
    pub fn finalize_request(&self, pdu: Vec<u8>) -> (r: Result<Vec<u8>, BuildError>)
        ensures
            pdu@.len() >= 65535 ==> r == Err::<Vec<u8>, BuildError>(BuildError::PayloadTooLong),
            pdu@.len() < 65535 ==> match framing_of(self.mode@) {
                Some(framing) => r is Ok && r->Ok_0@ == framed(
                    framing,
                    self.unit_id,
                    self.transaction_id,
                    pdu@,
                ),
                None => r == Err::<Vec<u8>, BuildError>(BuildError::Unsupported),
            },
    {
        if pdu.len() >= 65535 {
            return Err(BuildError::PayloadTooLong);
        }
        if same_text(self.mode.as_str(), "rtu") {
            let mut request: Vec<u8> = Vec::new();
            request.push(self.unit_id);
            let mut i: usize = 0;
            while i < pdu.len()
                invariant
                    i <= pdu.len(),
                    request@ == seq![self.unit_id] + pdu@.take(i as int),
                decreases pdu.len() - i,
            {
                request.push(pdu[i]);
                assert(request@ =~= seq![self.unit_id] + pdu@.take(i + 1));
                i += 1;
            }
            assert(pdu@.take(i as int) =~= pdu@);
            let crc = Self::calculate_crc(request.as_slice());
            request.push((crc % 256) as u8);
            request.push((crc / 256) as u8);
            assert(request@ =~= framed(Framing::Rtu, self.unit_id, self.transaction_id, pdu@));
            Ok(request)
        } else if same_text(self.mode.as_str(), "tcp") {
            let length: u16 = (pdu.len() + 1) as u16;
            let mut request: Vec<u8> = Vec::new();
            request.push((self.transaction_id / 256) as u8);
            request.push((self.transaction_id % 256) as u8);
            request.push(0);
            request.push(0);
            request.push((length / 256) as u8);
            request.push((length % 256) as u8);
            request.push(self.unit_id);
            let ghost head = request@;
            let mut i: usize = 0;
            while i < pdu.len()
                invariant
                    i <= pdu.len(),
                    request@ == head + pdu@.take(i as int),
                decreases pdu.len() - i,
            {
                request.push(pdu[i]);
                assert(request@ =~= head + pdu@.take(i + 1));
                i += 1;
            }
            assert(pdu@.take(i as int) =~= pdu@);
            assert(request@ =~= framed(Framing::Tcp, self.unit_id, self.transaction_id, pdu@));
            Ok(request)
        } else {
            Err(BuildError::Unsupported)
        }
    }

    /// The protocol data unit of a request with an address and one value.
    pub fn short_pdu_of(function: u8, address: u16, value: u16) -> (pdu: Vec<u8>)
        ensures
            pdu@ == short_pdu(function, address, value),
    {
        let mut pdu: Vec<u8> = Vec::new();
        pdu.push(function);
        pdu.push((address / 256) as u8);
        pdu.push((address % 256) as u8);
        pdu.push((value / 256) as u8);
        pdu.push((value % 256) as u8);
        assert(pdu@ =~= short_pdu(function, address, value));
        pdu
    }

    /// A read request. The quantity must lie in 1 to 2000 for bits
    /// (functions 1 and 2) and in 1 to 125 for registers (functions 3 and
    /// 4), else it is `InvalidQuantity`; any other function is
    /// `Unsupported`.
    pub fn build_read_request(&self, function_code: u8, start_address: u16, quantity: u16) -> (r:
        Result<Vec<u8>, BuildError>)
        ensures
            !(1 <= function_code <= 4) ==> r == Err::<Vec<u8>, BuildError>(
                BuildError::Unsupported,
            ),
            1 <= function_code <= 4 && !read_quantity_allowed(function_code, quantity) ==> r
                == Err::<Vec<u8>, BuildError>(BuildError::InvalidQuantity),
            read_quantity_allowed(function_code, quantity) ==> (match framing_of(self.mode@) {
                Some(framing) => r is Ok && r->Ok_0@ == framed(
                    framing,
                    self.unit_id,
                    self.transaction_id,
                    short_pdu(function_code, start_address, quantity),
                ),
                None => r == Err::<Vec<u8>, BuildError>(BuildError::Unsupported),
            }),
    {
        if function_code == 0x01 || function_code == 0x02 {
            if quantity == 0 || quantity > 2000 {
                return Err(BuildError::InvalidQuantity);
            }
        } else if function_code == 0x03 || function_code == 0x04 {
            if quantity == 0 || quantity > 125 {
                return Err(BuildError::InvalidQuantity);
            }
        } else {
            return Err(BuildError::Unsupported);
        }
        self.finalize_request(Self::short_pdu_of(function_code, start_address, quantity))
    }

    /// A request that writes one value.
    pub fn build_write_single_request(&self, function_code: u8, address: u16, value: u16) -> (r:
        Result<Vec<u8>, BuildError>)
        ensures
            match framing_of(self.mode@) {
                Some(framing) => r is Ok && r->Ok_0@ == framed(
                    framing,
                    self.unit_id,
                    self.transaction_id,
                    short_pdu(function_code, address, value),
                ),
                None => r == Err::<Vec<u8>, BuildError>(BuildError::Unsupported),
            },
    {
        self.finalize_request(Self::short_pdu_of(function_code, address, value))
    }

    /// A request that writes several values, given as bytes; more than 255
    /// bytes do not fit the byte count and are `PayloadTooLong`.
    pub fn build_write_multiple_request(
        &self,
        function_code: u8,
        start_address: u16,
        quantity: u16,
        values: &[u8],
    ) -> (r: Result<Vec<u8>, BuildError>)
        ensures
            values@.len() > 255 ==> r == Err::<Vec<u8>, BuildError>(BuildError::PayloadTooLong),
            values@.len() <= 255 ==> match framing_of(self.mode@) {
                Some(framing) => r is Ok && r->Ok_0@ == framed(
                    framing,
                    self.unit_id,
                    self.transaction_id,
                    long_pdu(function_code, start_address, quantity, values@),
                ),
                None => r == Err::<Vec<u8>, BuildError>(BuildError::Unsupported),
            },
    {
        if values.len() > 255 {
            return Err(BuildError::PayloadTooLong);
        }
        let mut pdu: Vec<u8> = Vec::new();
        pdu.push(function_code);
        pdu.push((start_address / 256) as u8);
        pdu.push((start_address % 256) as u8);
        pdu.push((quantity / 256) as u8);
        pdu.push((quantity % 256) as u8);
        pdu.push(values.len() as u8);
        let ghost head = pdu@;
        let mut i: usize = 0;
        while i < values.len()
            invariant
                i <= values.len(),
                values@.len() <= 255,
                pdu@ == head + values@.take(i as int),
            decreases values.len() - i,
        {
            pdu.push(values[i]);
            assert(pdu@ =~= head + values@.take(i + 1));
            i += 1;
        }
        assert(values@.take(i as int) =~= values@);
        assert(pdu@ =~= long_pdu(function_code, start_address, quantity, values@));
        self.finalize_request(pdu)
    }

    /// A request to read `quantity` coils from `start_address` on.
    pub fn build_read_coils(&self, start_address: u16, quantity: u16) -> (r: Result<
        Vec<u8>,
        BuildError,
    >)
        ensures
            !(1 <= quantity <= 2000) ==> r == Err::<Vec<u8>, BuildError>(
                BuildError::InvalidQuantity,
            ),
            1 <= quantity <= 2000 ==> (match framing_of(self.mode@) {
                Some(framing) => r is Ok && r->Ok_0@ == framed(
                    framing,
                    self.unit_id,
                    self.transaction_id,
                    short_pdu(0x01, start_address, quantity),
                ),
                None => r == Err::<Vec<u8>, BuildError>(BuildError::Unsupported),
            }),
    {
        self.build_read_request(function_code_byte(ModbusFunctionCode::ReadCoils), start_address, quantity)
    }

    /// A request to read `quantity` discrete inputs from `start_address` on.
    pub fn build_read_discrete_inputs(&self, start_address: u16, quantity: u16) -> (r: Result<
        Vec<u8>,
        BuildError,
    >)
        ensures
            !(1 <= quantity <= 2000) ==> r == Err::<Vec<u8>, BuildError>(
                BuildError::InvalidQuantity,
            ),
            1 <= quantity <= 2000 ==> (match framing_of(self.mode@) {
                Some(framing) => r is Ok && r->Ok_0@ == framed(
                    framing,
                    self.unit_id,
                    self.transaction_id,
                    short_pdu(0x02, start_address, quantity),
                ),
                None => r == Err::<Vec<u8>, BuildError>(BuildError::Unsupported),
            }),
    {
        self.build_read_request(
            function_code_byte(ModbusFunctionCode::ReadDiscreteInputs),
            start_address,
            quantity,
        )
    }

    /// A request to read `quantity` holding registers from `start_address`
    /// on.
    pub fn build_read_holding_registers(&self, start_address: u16, quantity: u16) -> (r: Result<
        Vec<u8>,
        BuildError,
    >)
        ensures
            !(1 <= quantity <= 125) ==> r == Err::<Vec<u8>, BuildError>(
                BuildError::InvalidQuantity,
            ),
            1 <= quantity <= 125 ==> (match framing_of(self.mode@) {
                Some(framing) => r is Ok && r->Ok_0@ == framed(
                    framing,
                    self.unit_id,
                    self.transaction_id,
                    short_pdu(0x03, start_address, quantity),
                ),
                None => r == Err::<Vec<u8>, BuildError>(BuildError::Unsupported),
            }),
    {
        self.build_read_request(
            function_code_byte(ModbusFunctionCode::ReadHoldingRegisters),
            start_address,
            quantity,
        )
    }

    /// A request to read `quantity` input registers from `start_address` on.
    pub fn build_read_input_registers(&self, start_address: u16, quantity: u16) -> (r: Result<
        Vec<u8>,
        BuildError,
    >)
        ensures
            !(1 <= quantity <= 125) ==> r == Err::<Vec<u8>, BuildError>(
                BuildError::InvalidQuantity,
            ),
            1 <= quantity <= 125 ==> (match framing_of(self.mode@) {
                Some(framing) => r is Ok && r->Ok_0@ == framed(
                    framing,
                    self.unit_id,
                    self.transaction_id,
                    short_pdu(0x04, start_address, quantity),
                ),
                None => r == Err::<Vec<u8>, BuildError>(BuildError::Unsupported),
            }),
    {
        self.build_read_request(
            function_code_byte(ModbusFunctionCode::ReadInputRegisters),
            start_address,
            quantity,
        )
    }

    /// A request to switch one coil on (`0xFF00`) or off (`0x0000`).
    pub fn build_write_single_coil(&self, address: u16, value: bool) -> (r: Result<
        Vec<u8>,
        BuildError,
    >)
        ensures
            match framing_of(self.mode@) {
                Some(framing) => r is Ok && r->Ok_0@ == framed(
                    framing,
                    self.unit_id,
                    self.transaction_id,
                    short_pdu(
                        0x05,
                        address,
                        if value {
                            0xFF00
                        } else {
                            0x0000
                        },
                    ),
                ),
                None => r == Err::<Vec<u8>, BuildError>(BuildError::Unsupported),
            },
    {
        let value_u16: u16 = if value {
            0xFF00
        } else {
            0x0000
        };
        self.build_write_single_request(
            function_code_byte(ModbusFunctionCode::WriteSingleCoil),
            address,
            value_u16,
        )
    }

    /// A request to write one register.
    pub fn build_write_single_register(&self, address: u16, value: u16) -> (r: Result<
        Vec<u8>,
        BuildError,
    >)
        ensures
            match framing_of(self.mode@) {
                Some(framing) => r is Ok && r->Ok_0@ == framed(
                    framing,
                    self.unit_id,
                    self.transaction_id,
                    short_pdu(0x06, address, value),
                ),
                None => r == Err::<Vec<u8>, BuildError>(BuildError::Unsupported),
            },
    {
        self.build_write_single_request(
            function_code_byte(ModbusFunctionCode::WriteSingleRegister),
            address,
            value,
        )
    }

    /// Coils packed eight to a byte; see [`packed_coils`].
    pub(crate) fn pack_coils(values: &[bool]) -> (bytes: Vec<u8>)
        requires
            values@.len() <= 1968,
        ensures
            bytes@ == packed_coils(values@),
    {
        let n = values.len();
        let byte_count = (n + 7) / 8;
        let mut bytes: Vec<u8> = Vec::new();
        let mut j: usize = 0;
        while j < byte_count
            invariant
                j <= byte_count,
                n == values@.len(),
                n <= 1968,
                byte_count == (n + 7) / 8,
                bytes@.len() == j,
                forall|m: int| 0 <= m < j ==> bytes@[m] == coil_bits(values@, m, 8) as u8,
            decreases byte_count - j,
        {
            let mut byte: u8 = 0;
            let mut weight: u8 = 1;
            let mut b: usize = 0;
            while b < 8
                invariant
                    b <= 8,
                    n == values@.len(),
                    n <= 1968,
                    j < byte_count,
                    byte_count == (n + 7) / 8,
                    byte == coil_bits(values@, j as int, b as int),
                    b < 8 ==> weight == pow2_u8(b as int),
                decreases 8 - b,
            {
                proof {
                    lemma_coil_bits_bound(values@, j as int, b as int);
                    lemma_coil_bits_bound(values@, j as int, b + 1);
                }
                if 8 * j + b < n && values[8 * j + b] {
                    byte = byte + weight;
                }
                if b < 7 {
                    weight = weight * 2;
                }
                b += 1;
            }
            bytes.push(byte);
            j += 1;
        }
        assert(bytes@ =~= packed_coils(values@));
        bytes
    }

    /// A request to write coils from `start_address` on; 1 to 1968 coils
    /// may be written, any other number is `InvalidQuantity`.
    pub fn build_write_multiple_coils(&self, start_address: u16, values: &[bool]) -> (r: Result<
        Vec<u8>,
        BuildError,
    >)
        ensures
            !(1 <= values@.len() <= 1968) ==> r == Err::<Vec<u8>, BuildError>(
                BuildError::InvalidQuantity,
            ),
            1 <= values@.len() <= 1968 ==> (match framing_of(self.mode@) {
                Some(framing) => r is Ok && r->Ok_0@ == framed(
                    framing,
                    self.unit_id,
                    self.transaction_id,
                    long_pdu(0x0F, start_address, values@.len() as u16, packed_coils(values@)),
                ),
                None => r == Err::<Vec<u8>, BuildError>(BuildError::Unsupported),
            }),
    {
        if values.len() == 0 || values.len() > 1968 {
            return Err(BuildError::InvalidQuantity);
        }
        let coil_bytes = Self::pack_coils(values);
        self.build_write_multiple_request(
            function_code_byte(ModbusFunctionCode::WriteMultipleCoils),
            start_address,
            values.len() as u16,
            coil_bytes.as_slice(),
        )
    }

    /// A request to write registers from `start_address` on; 1 to 123
    /// registers may be written, any other number is `InvalidQuantity`.
    pub fn build_write_multiple_registers(&self, start_address: u16, values: &[u16]) -> (r: Result<
        Vec<u8>,
        BuildError,
    >)
        ensures
            !(1 <= values@.len() <= 123) ==> r == Err::<Vec<u8>, BuildError>(
                BuildError::InvalidQuantity,
            ),
            1 <= values@.len() <= 123 ==> (match framing_of(self.mode@) {
                Some(framing) => r is Ok && r->Ok_0@ == framed(
                    framing,
                    self.unit_id,
                    self.transaction_id,
                    long_pdu(0x10, start_address, values@.len() as u16, register_bytes(values@)),
                ),
                None => r == Err::<Vec<u8>, BuildError>(BuildError::Unsupported),
            }),
    {
        if values.len() == 0 || values.len() > 123 {
            return Err(BuildError::InvalidQuantity);
        }
        let mut bytes: Vec<u8> = Vec::new();
        let mut i: usize = 0;
        assert(values@.take(0) =~= Seq::<u16>::empty());
        while i < values.len()
            invariant
                i <= values.len(),
                values@.len() <= 123,
                bytes@.len() == 2 * i,
                bytes@ == register_bytes(values@.take(i as int)),
            decreases values.len() - i,
        {
            proof {
                assert(values@.take(i + 1).drop_last() =~= values@.take(i as int));
            }
            bytes.push((values[i] / 256) as u8);
            bytes.push((values[i] % 256) as u8);
            assert(bytes@ =~= register_bytes(values@.take(i + 1)));
            i += 1;
        }
        assert(values@.take(i as int) =~= values@);
        self.build_write_multiple_request(
            function_code_byte(ModbusFunctionCode::WriteMultipleRegisters),
            start_address,
            values.len() as u16,
            bytes.as_slice(),
        )
    }

    /// The request for a description as it is decoded from its JSON form;
    /// see [`built_request`].
    pub fn build_from_json(&self, request: &ModbusRequest) -> (r: Result<Vec<u8>, BuildError>)
        ensures
            match r {
                Ok(bytes) => built_request(self.mode@, self.unit_id, self.transaction_id, *request)
                    == Ok::<Seq<u8>, BuildError>(bytes@),
                Err(e) => built_request(self.mode@, self.unit_id, self.transaction_id, *request)
                    == Err::<Seq<u8>, BuildError>(e),
            },
    {
        match request {
            ModbusRequest::ReadCoils { address, quantity } => self.build_read_coils(
                *address,
                *quantity,
            ),
            ModbusRequest::ReadDiscreteInputs { address, quantity } => self.build_read_discrete_inputs(
                *address,
                *quantity,
            ),
            ModbusRequest::ReadHoldingRegisters {
                address,
                quantity,
            } => self.build_read_holding_registers(*address, *quantity),
            ModbusRequest::ReadInputRegisters { address, quantity } => self.build_read_input_registers(
                *address,
                *quantity,
            ),
            ModbusRequest::WriteSingleCoil { address, state } => self.build_write_single_coil(
                *address,
                *state,
            ),
            ModbusRequest::WriteSingleRegister { address, value } => self.build_write_single_register(
                *address,
                *value,
            ),
            ModbusRequest::WriteMultipleCoils { address, coils } => self.build_write_multiple_coils(
                *address,
                coils.as_slice(),
            ),
            ModbusRequest::WriteMultipleRegisters {
                address,
                values,
            } => self.build_write_multiple_registers(*address, values.as_slice()),
        }
    }

    /// The request that a function code names, of the values that came
    /// with it. The four reading codes take `quantity`, `0x05` takes
    /// `state`, `0x06` takes `value`, `0x0F` takes `coils` and `0x10` takes
    /// `values`; each takes `address`. Any other code is `Unsupported`.
    pub fn request_of(
        function_code: u64,
        address: u16,
        quantity: u16,
        value: u16,
        state: bool,
        coils: &[bool],
        values: &[u16],
    ) -> (r: Result<ModbusRequest, BuildError>)
        ensures
            match function_code {
                0x01 => r matches Ok(ModbusRequest::ReadCoils { address: a, quantity: q }) && a
                    == address && q == quantity,
                0x02 => r matches Ok(ModbusRequest::ReadDiscreteInputs { address: a, quantity: q })
                    && a == address && q == quantity,
                0x03 => r matches Ok(ModbusRequest::ReadHoldingRegisters { address: a, quantity: q })
                    && a == address && q == quantity,
                0x04 => r matches Ok(ModbusRequest::ReadInputRegisters { address: a, quantity: q })
                    && a == address && q == quantity,
                0x05 => r matches Ok(ModbusRequest::WriteSingleCoil { address: a, state: b }) && a
                    == address && b == state,
                0x06 => r matches Ok(ModbusRequest::WriteSingleRegister { address: a, value: v })
                    && a == address && v == value,
                0x0F => r matches Ok(ModbusRequest::WriteMultipleCoils { address: a, coils: c })
                    && a == address && c@ == coils@,
                0x10 => r matches Ok(ModbusRequest::WriteMultipleRegisters { address: a, values: v })
                    && a == address && v@ == values@,
                _ => r == Err::<ModbusRequest, BuildError>(BuildError::Unsupported),
            },
    {
        if function_code == 0x01 {
            Ok(ModbusRequest::ReadCoils { address, quantity })
        } else if function_code == 0x02 {
            Ok(ModbusRequest::ReadDiscreteInputs { address, quantity })
        } else if function_code == 0x03 {
            Ok(ModbusRequest::ReadHoldingRegisters { address, quantity })
        } else if function_code == 0x04 {
            Ok(ModbusRequest::ReadInputRegisters { address, quantity })
        } else if function_code == 0x05 {
            Ok(ModbusRequest::WriteSingleCoil { address, state })
        } else if function_code == 0x06 {
            Ok(ModbusRequest::WriteSingleRegister { address, value })
        } else if function_code == 0x0F {
            let mut list: Vec<bool> = Vec::new();
            let mut i: usize = 0;
            while i < coils.len()
                invariant
                    i <= coils.len(),
                    list@ == coils@.take(i as int),
                decreases coils.len() - i,
            {
                list.push(coils[i]);
                assert(list@ =~= coils@.take(i + 1));
                i += 1;
            }
            assert(list@ =~= coils@);
            Ok(ModbusRequest::WriteMultipleCoils { address, coils: list })
        } else if function_code == 0x10 {
            let mut list: Vec<u16> = Vec::new();
            let mut i: usize = 0;
            while i < values.len()
                invariant
                    i <= values.len(),
                    list@ == values@.take(i as int),
                decreases values.len() - i,
            {
                list.push(values[i]);
                assert(list@ =~= values@.take(i + 1));
                i += 1;
            }
            assert(list@ =~= values@);
            Ok(ModbusRequest::WriteMultipleRegisters { address, values: list })
        } else {
            Err(BuildError::Unsupported)
        }
    }
}

} // verus!
