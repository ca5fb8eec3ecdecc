use frame_codec::codec::ItemDataError;
use frame_codec::error::BuildError;
use frame_codec::interpreter::FrameAnalisyic;
use frame_codec::modbus::{ModbusBuilder, ModbusRequest};
use frame_codec::schema_find::QframeConfig;

#[test]
fn crc_of_known_vectors() {
    assert_eq!(ModbusBuilder::calculate_crc(&[]), 0xFFFF);
    assert_eq!(ModbusBuilder::calculate_crc(b"123456789"), 0x4B37);
    assert_eq!(ModbusBuilder::calculate_crc(&[0x01, 0x03, 0x00, 0x00, 0x00, 0x0A]), 0xCDC5);
}

#[test]
fn rtu_read_request() {
    let builder = ModbusBuilder::new(0x01, "rtu");
    assert_eq!(
        builder.build_read_holding_registers(0x0000, 0x000A),
        Ok(vec![0x01, 0x03, 0x00, 0x00, 0x00, 0x0A, 0xC5, 0xCD])
    );
    assert_eq!(builder.build_read_coils(0x0013, 0x0025).unwrap()[..6], [0x01, 0x01, 0x00, 0x13, 0x00, 0x25]);
    assert_eq!(builder.build_read_discrete_inputs(1, 1).unwrap()[1], 0x02);
    assert_eq!(builder.build_read_input_registers(1, 1).unwrap()[1], 0x04);
}

#[test]
fn tcp_read_request() {
    let builder = ModbusBuilder::new(0x11, "tcp").with_transaction_id(0x1234);
    assert_eq!(
        builder.build_read_holding_registers(0x006B, 0x0003),
        Ok(vec![0x12, 0x34, 0x00, 0x00, 0x00, 0x06, 0x11, 0x03, 0x00, 0x6B, 0x00, 0x03])
    );
    let default = ModbusBuilder::new(0x11, "tcp");
    assert_eq!(default.transaction_id, 1);
    assert_eq!(default.build_write_single_register(1, 0xABCD).unwrap()[..2], [0x00, 0x01]);
}

#[test]
fn quantities_are_checked() {
    let builder = ModbusBuilder::new(1, "rtu");
    assert_eq!(builder.build_read_coils(0, 0), Err(BuildError::InvalidQuantity));
    assert_eq!(builder.build_read_coils(0, 2001), Err(BuildError::InvalidQuantity));
    assert!(builder.build_read_coils(0, 2000).is_ok());
    assert_eq!(builder.build_read_discrete_inputs(0, 2001), Err(BuildError::InvalidQuantity));
    assert_eq!(builder.build_read_holding_registers(0, 126), Err(BuildError::InvalidQuantity));
    assert!(builder.build_read_holding_registers(0, 125).is_ok());
    assert_eq!(builder.build_read_input_registers(0, 0), Err(BuildError::InvalidQuantity));
    assert_eq!(builder.build_read_request(0x05, 0, 1), Err(BuildError::Unsupported));
    assert_eq!(builder.build_write_multiple_coils(0, &[]), Err(BuildError::InvalidQuantity));
    assert_eq!(builder.build_write_multiple_coils(0, &[true; 1969]), Err(BuildError::InvalidQuantity));
    assert!(builder.build_write_multiple_coils(0, &[true; 1968]).is_ok());
    assert_eq!(builder.build_write_multiple_registers(0, &[]), Err(BuildError::InvalidQuantity));
    assert_eq!(builder.build_write_multiple_registers(0, &[0; 124]), Err(BuildError::InvalidQuantity));
    assert!(builder.build_write_multiple_registers(0, &[0; 123]).is_ok());
}

#[test]
fn unknown_modes_are_refused() {
    let builder = ModbusBuilder::new(1, "ascii");
    assert_eq!(builder.build_read_coils(0, 1), Err(BuildError::Unsupported));
    assert_eq!(builder.build_write_single_coil(0, true), Err(BuildError::Unsupported));
    assert_eq!(builder.build_write_multiple_registers(0, &[1]), Err(BuildError::Unsupported));
    assert_eq!(builder.finalize_request(vec![1, 2]), Err(BuildError::Unsupported));
}

#[test]
fn single_writes() {
    let builder = ModbusBuilder::new(0x11, "tcp");
    assert_eq!(builder.build_write_single_coil(0x00AC, true).unwrap()[7..], [0x05, 0x00, 0xAC, 0xFF, 0x00]);
    assert_eq!(builder.build_write_single_coil(0x00AC, false).unwrap()[7..], [0x05, 0x00, 0xAC, 0x00, 0x00]);
    assert_eq!(builder.build_write_single_register(0x0001, 0x0003).unwrap()[7..], [0x06, 0x00, 0x01, 0x00, 0x03]);
}

#[test]
fn multiple_writes_pack_their_values() {
    let builder = ModbusBuilder::new(0x11, "tcp");
    let coils = [true, false, true, true, false, false, true, true, true, false];
    assert_eq!(
        builder.build_write_multiple_coils(0x0013, &coils).unwrap(),
        vec![0x00, 0x01, 0x00, 0x00, 0x00, 0x09, 0x11, 0x0F, 0x00, 0x13, 0x00, 0x0A, 0x02, 0xCD, 0x01]
    );
    assert_eq!(builder.build_write_multiple_coils(0, &[true; 8]).unwrap()[12..], [0x01, 0xFF]);
    assert_eq!(builder.build_write_multiple_coils(0, &[false, true]).unwrap()[12..], [0x01, 0x02]);
    assert_eq!(builder.build_write_multiple_request(0x10, 0, 1, &[0u8; 256]), Err(BuildError::PayloadTooLong));
    assert_eq!(builder.finalize_request(vec![0u8; 65535]), Err(BuildError::PayloadTooLong));
    assert_eq!(
        builder.build_write_multiple_registers(0x0001, &[0x000A, 0x0102]).unwrap(),
        vec![0x00, 0x01, 0x00, 0x00, 0x00, 0x0B, 0x11, 0x10, 0x00, 0x01, 0x00, 0x02, 0x04, 0x00, 0x0A, 0x01, 0x02]
    );
    let rtu = ModbusBuilder::new(0x11, "rtu").build_write_multiple_registers(0x0001, &[0x000A]).unwrap();
    let crc = ModbusBuilder::calculate_crc(&rtu[..rtu.len() - 2]);
    assert_eq!(rtu[rtu.len() - 2..], [(crc & 0xFF) as u8, (crc >> 8) as u8]);
}

const SCHEMA: &str = r#"<config protocol="DLT/645-2007" region="南网" dir="1">
    <dataItem id="0001FF00">
        <name>电能</name>
        <length>2</length>
        <type>BCD</type>
        <decimal>1</decimal>
    </dataItem>
    <dataItem id="0002FF00">
        <name>其余</name>
        <type>HEX</type>
    </dataItem>
    <dataItem id="0003FF00" dir="0">
        <name>上行</name>
    </dataItem>
</config>"#;

fn loaded() -> QframeConfig {
    let mut repo = QframeConfig::new();
    assert_eq!(repo.load(SCHEMA.as_bytes(), None), Ok(()));
    repo
}

#[test]
fn item_data_is_shown_on_its_own() {
    let mut repo = loaded();
    let fields = FrameAnalisyic::parse_item_data(&mut repo, " 0001ff00 ", " 34120506 ", " DLT/645-2007 ", " 南网 ").unwrap();
    assert_eq!(fields.len(), 2);
    let id = &fields[0];
    assert_eq!((id.label.as_str(), id.raw_hex.as_str(), id.description.as_str(), id.start, id.end), ("数据标识编码DI", "00 FF 01 00", "数据标识编码：[0001FF00]-电能", 0, 0));
    let content = &fields[1];
    assert_eq!((content.label.as_str(), content.raw_hex.as_str(), content.description.as_str(), content.start, content.end), ("数据标识内容", "34 12", "数据标识[0001FF00]数据内容：06051234", 0, 0));
    assert_eq!(content.children.len(), 1);
    let value = &content.children[0];
    assert_eq!((value.label.as_str(), value.raw_hex.as_str(), value.description.as_str(), value.start, value.end), ("电能", "34 12", "123.4", 0, 2));
    let fields = FrameAnalisyic::parse_item_data(&mut repo, "0002FF00", "0102", "DLT/645-2007", "南网").unwrap();
    assert_eq!(fields[1].raw_hex, "01 02");
    assert_eq!(fields[1].children[0].description, "0201");
}

#[test]
fn item_data_errors() {
    let mut repo = loaded();
    let mut parse = |item: &str, input: &str, protocol: &str, region: &str| {
        FrameAnalisyic::parse_item_data(&mut repo, item, input, protocol, region).err()
    };
    assert_eq!(parse("", "01", "DLT/645-2007", "南网"), Some(ItemDataError::EmptyItem));
    assert_eq!(parse("0001FF00", "", "DLT/645-2007", "南网"), Some(ItemDataError::EmptyInput));
    assert_eq!(parse("0001FF00", "01", "", "南网"), Some(ItemDataError::EmptyProtocol));
    assert_eq!(parse("0001FF00", "01", "DLT/645-2007", ""), Some(ItemDataError::EmptyRegion));
    assert_eq!(parse("0001FF0G", "01", "DLT/645-2007", "南网"), Some(ItemDataError::ItemNotHex));
    assert_eq!(parse("0001FF0", "01", "DLT/645-2007", "南网"), Some(ItemDataError::ItemNotHex));
    assert_eq!(parse("0001FF00", "0 1", "DLT/645-2007", "南网"), Some(ItemDataError::InputNotHex));
    assert_eq!(parse("0001FF00", "012", "DLT/645-2007", "南网"), Some(ItemDataError::InputNotHex));
    assert_eq!(parse("0009FF00", "01", "DLT/645-2007", "南网"), Some(ItemDataError::NotFound));
    assert_eq!(parse("0003FF00", "01", "DLT/645-2007", "南网"), Some(ItemDataError::NotFound));
    assert_eq!(parse("0001FF00", "01", "DLT/645-2007", "南网"), Some(ItemDataError::TooLong));
    assert_eq!(ItemDataError::TooLong.message(), "数据长度超过实际数据长度");
    assert_eq!(ItemDataError::EmptyItem.message(), "数据标识不能为空");
}

#[test]
fn requests_are_built_from_their_description() {
    let builder = ModbusBuilder::new(0x11, "tcp");
    assert_eq!(
        builder.build_from_json(&ModbusRequest::ReadCoils { address: 1, quantity: 2 }),
        builder.build_read_coils(1, 2)
    );
    assert_eq!(
        builder.build_from_json(&ModbusRequest::ReadDiscreteInputs { address: 1, quantity: 2 }),
        builder.build_read_discrete_inputs(1, 2)
    );
    assert_eq!(
        builder.build_from_json(&ModbusRequest::ReadHoldingRegisters { address: 1, quantity: 2 }),
        builder.build_read_holding_registers(1, 2)
    );
    assert_eq!(
        builder.build_from_json(&ModbusRequest::ReadInputRegisters { address: 1, quantity: 0 }),
        Err(BuildError::InvalidQuantity)
    );
    assert_eq!(
        builder.build_from_json(&ModbusRequest::WriteSingleCoil { address: 1, state: true }),
        builder.build_write_single_coil(1, true)
    );
    assert_eq!(
        builder.build_from_json(&ModbusRequest::WriteSingleRegister { address: 1, value: 7 }),
        builder.build_write_single_register(1, 7)
    );
    assert_eq!(
        builder.build_from_json(&ModbusRequest::WriteMultipleCoils { address: 1, coils: vec![true, false] }),
        builder.build_write_multiple_coils(1, &[true, false])
    );
    assert_eq!(
        builder.build_from_json(&ModbusRequest::WriteMultipleRegisters { address: 1, values: vec![] }),
        Err(BuildError::InvalidQuantity)
    );
    let other = ModbusBuilder::new(1, "ascii");
    assert_eq!(
        other.build_from_json(&ModbusRequest::ReadCoils { address: 1, quantity: 0 }),
        Err(BuildError::InvalidQuantity)
    );
    assert_eq!(
        other.build_from_json(&ModbusRequest::ReadCoils { address: 1, quantity: 1 }),
        Err(BuildError::Unsupported)
    );
}

#[test]
fn a_function_code_names_its_request() {
    let coils = [true, false, true];
    let values = [0x000A, 0x0102];
    let of = |code: u64| ModbusBuilder::request_of(code, 0x0010, 3, 0x0205, true, &coils, &values);
    assert!(matches!(of(0x01), Ok(ModbusRequest::ReadCoils { address: 0x0010, quantity: 3 })));
    assert!(matches!(of(0x02), Ok(ModbusRequest::ReadDiscreteInputs { address: 0x0010, quantity: 3 })));
    assert!(matches!(of(0x03), Ok(ModbusRequest::ReadHoldingRegisters { address: 0x0010, quantity: 3 })));
    assert!(matches!(of(0x04), Ok(ModbusRequest::ReadInputRegisters { address: 0x0010, quantity: 3 })));
    assert!(matches!(of(0x05), Ok(ModbusRequest::WriteSingleCoil { address: 0x0010, state: true })));
    assert!(matches!(of(0x06), Ok(ModbusRequest::WriteSingleRegister { address: 0x0010, value: 0x0205 })));
    assert!(matches!(
        of(0x0F),
        Ok(ModbusRequest::WriteMultipleCoils { address: 0x0010, coils: c }) if c == vec![true, false, true]
    ));
    assert!(matches!(
        of(0x10),
        Ok(ModbusRequest::WriteMultipleRegisters { address: 0x0010, values: v }) if v == vec![0x000A, 0x0102]
    ));
    assert!(matches!(of(0x00), Err(BuildError::Unsupported)));
    assert!(matches!(of(0x07), Err(BuildError::Unsupported)));
    assert!(matches!(of(0x0101), Err(BuildError::Unsupported)));
    let builder = ModbusBuilder::new(1, "rtu");
    assert_eq!(
        builder.build_from_json(&of(0x10).unwrap()),
        builder.build_write_multiple_registers(0x0010, &values)
    );
}
