use frame_codec::frame_fun::FrameFun;
use frame_codec::json_tree::JsonValue;
use frame_codec::modbus::ModbusBuilder;
use frame_codec::modbus_parser::{ModbusError, ModbusParser, ModbusPayload};

fn rtu(body: &[u8]) -> Vec<u8> {
    let mut frame = body.to_vec();
    let crc = ModbusBuilder::calculate_crc(body);
    frame.push((crc & 0xFF) as u8);
    frame.push((crc >> 8) as u8);
    frame
}

#[test]
fn rtu_responses_are_read() {
    let m = ModbusParser::parse_rtu(&rtu(&[0x11, 0x03, 0x04, 0x00, 0x0A, 0x01, 0x02])).ok().unwrap();
    assert_eq!((m.unit_id, m.function_code), (0x11, 0x03));
    assert!(matches!(m.payload, ModbusPayload::Registers { byte_count: 4, registers } if registers == vec![0x000A, 0x0102]));
    let m = ModbusParser::parse_rtu(&rtu(&[0x11, 0x01, 0x02, 0xCD, 0x01])).ok().unwrap();
    let expected = vec![true, false, true, true, false, false, true, true, true, false, false, false, false, false, false, false];
    assert!(matches!(m.payload, ModbusPayload::Bits { byte_count: 2, bits } if bits == expected));
    let m = ModbusParser::parse_rtu(&rtu(&[0x11, 0x05, 0x00, 0xAC, 0xFF, 0x00])).ok().unwrap();
    assert!(matches!(m.payload, ModbusPayload::SingleCoil { address: 0x00AC, state: true }));
    let m = ModbusParser::parse_rtu(&rtu(&[0x11, 0x05, 0x00, 0xAC, 0x00, 0x00])).ok().unwrap();
    assert!(matches!(m.payload, ModbusPayload::SingleCoil { address: 0x00AC, state: false }));
    let m = ModbusParser::parse_rtu(&rtu(&[0x11, 0x06, 0x00, 0x01, 0x00, 0x03])).ok().unwrap();
    assert!(matches!(m.payload, ModbusPayload::SingleRegister { address: 1, value: 3 }));
    let m = ModbusParser::parse_rtu(&rtu(&[0x11, 0x0F, 0x00, 0x13, 0x00, 0x0A])).ok().unwrap();
    assert!(matches!(m.payload, ModbusPayload::MultipleCoils { address: 0x13, quantity: 10 }));
    let m = ModbusParser::parse_rtu(&rtu(&[0x11, 0x10, 0x00, 0x01, 0x00, 0x02])).ok().unwrap();
    assert!(matches!(m.payload, ModbusPayload::MultipleRegisters { address: 1, quantity: 2 }));
    let m = ModbusParser::parse_rtu(&rtu(&[0x11, 0x83, 0x02])).ok().unwrap();
    assert!(matches!(m.payload, ModbusPayload::Exception { function_code: 0x03, exception_code: 0x02 }));
}

#[test]
fn rtu_errors() {
    assert_eq!(ModbusParser::parse_rtu(&[1, 2, 3]).err(), Some(ModbusError::FrameTooShort));
    let mut bad = rtu(&[0x11, 0x03, 0x02, 0x00, 0x0A]);
    let expected = ModbusBuilder::calculate_crc(&bad[..5]);
    bad[5] ^= 0xFF;
    let got = ((bad[6] as u16) << 8) | bad[5] as u16;
    assert_eq!(ModbusParser::parse_rtu(&bad).err(), Some(ModbusError::CrcMismatch { expected, got }));
    assert_eq!(ModbusParser::parse_rtu(&rtu(&[0x11, 0x03])).err(), Some(ModbusError::EmptyPayload));
    assert_eq!(ModbusParser::parse_rtu(&rtu(&[0x11, 0x03, 0x04, 0x00])).err(), Some(ModbusError::PayloadTooShort));
    assert_eq!(ModbusParser::parse_rtu(&rtu(&[0x11, 0x05, 0x00])).err(), Some(ModbusError::PayloadTooShort));
    assert_eq!(ModbusParser::parse_rtu(&rtu(&[0x11, 0x83])).err(), Some(ModbusError::InvalidException));
    assert_eq!(ModbusParser::parse_rtu(&rtu(&[0x11, 0x07, 0x00])).err(), Some(ModbusError::UnsupportedFunction(0x07)));
    assert_eq!(ModbusParser::parse_rtu(&rtu(&[0x11, 0x00, 0x00])).err(), Some(ModbusError::UnsupportedFunction(0x00)));
}

#[test]
fn tcp_responses_are_read() {
    let frame = [0x12, 0x34, 0x00, 0x00, 0x00, 0x05, 0x11, 0x03, 0x02, 0x00, 0x0A];
    let m = ModbusParser::parse_tcp(&frame).ok().unwrap();
    assert_eq!((m.transaction_id, m.protocol_id, m.length, m.unit_id, m.function_code), (0x1234, 0, 5, 0x11, 0x03));
    assert!(matches!(m.payload, ModbusPayload::Registers { byte_count: 2, registers } if registers == vec![10]));
    assert_eq!(ModbusParser::parse_tcp(&frame[..7]).err(), Some(ModbusError::FrameTooShort));
    let mut other = frame;
    other[3] = 1;
    assert_eq!(ModbusParser::parse_tcp(&other).err(), Some(ModbusError::BadProtocol(1)));
    let mut wrong = frame;
    wrong[5] = 6;
    assert_eq!(ModbusParser::parse_tcp(&wrong).err(), Some(ModbusError::LengthMismatch));
}

#[test]
fn frames_are_validated_by_mode() {
    let parser = ModbusParser::new();
    assert_eq!(parser.mode, "rtu");
    let frame = rtu(&[0x11, 0x03, 0x02, 0x00, 0x0A]);
    assert_eq!(parser.validate(&frame), Ok(true));
    assert_eq!(parser.validate(&frame[1..]), Ok(false));
    assert_eq!(parser.validate(&[1, 2]), Ok(false));
    let tcp = ModbusParser { mode: "tcp".to_string() };
    assert_eq!(tcp.validate(&[0x12, 0x34, 0x00, 0x00, 0x00, 0x02, 0x11, 0x03]), Ok(true));
    assert_eq!(tcp.validate(&[0x12, 0x34, 0x00, 0x00, 0x00, 0x03, 0x11, 0x03]), Ok(false));
    assert_eq!(tcp.validate(&[0x12, 0x34, 0x00, 0x01, 0x00, 0x02, 0x11, 0x03]), Ok(false));
    assert_eq!(tcp.validate(&[0x12]), Ok(false));
    let other = ModbusParser { mode: "ascii".to_string() };
    assert_eq!(other.validate(&frame), Err(ModbusError::UnsupportedMode));
    assert_eq!(ModbusParser::calculate_crc(b"123456789"), 0x4B37);
}

#[test]
fn what_a_builder_builds_a_parser_accepts() {
    let request = ModbusBuilder::new(1, "rtu").build_write_single_register(2, 3).unwrap();
    let m = ModbusParser::parse_rtu(&request).ok().unwrap();
    assert!(matches!(m.payload, ModbusPayload::SingleRegister { address: 2, value: 3 }));
    let request = ModbusBuilder::new(1, "tcp").build_write_single_coil(2, true).unwrap();
    let m = ModbusParser::parse_tcp(&request).ok().unwrap();
    assert!(matches!(m.payload, ModbusPayload::SingleCoil { address: 2, state: true }));
}

fn object(members: Vec<(&str, JsonValue)>) -> JsonValue {
    JsonValue::Object(members.into_iter().map(|(k, v)| (k.to_string(), v)).collect())
}

fn text(s: &str) -> JsonValue {
    JsonValue::Text(s.to_string())
}

#[test]
fn the_node_of_a_data_item_is_found_in_document_order() {
    let tree = object(vec![
        ("版本", text("1")),
        (
            "列表",
            JsonValue::Array(vec![
                object(vec![("数据项", text("0001")), ("名称", text("a"))]),
                object(vec![
                    ("数据项", JsonValue::Number("2".to_string())),
                    ("子项", object(vec![("名称", text("b")), ("数据项", text("0002"))])),
                ]),
                JsonValue::Null,
                JsonValue::Bool(true),
            ]),
        ),
        ("后", object(vec![("数据项", text("0001")), ("名称", text("c"))])),
    ]);
    let name = |v: Option<&JsonValue>| match v {
        Some(JsonValue::Object(members)) => members.iter().find(|(k, _)| k == "名称").map(|(_, v)| match v {
            JsonValue::Text(t) => t.clone(),
            _ => String::new(),
        }),
        _ => None,
    };
    assert_eq!(name(FrameFun::find_node_by_data_item(&tree, "0001")), Some("a".to_string()));
    assert_eq!(name(FrameFun::find_node_by_data_item(&tree, "0002")), Some("b".to_string()));
    assert!(FrameFun::find_node_by_data_item(&tree, "2").is_none());
    assert!(FrameFun::find_node_by_data_item(&tree, "0003").is_none());
    assert!(FrameFun::find_node_by_data_item(&text("0001"), "0001").is_none());
    let own = object(vec![("数据项", text("x")), ("内", object(vec![("数据项", text("y"))]))]);
    assert!(matches!(FrameFun::find_node_by_data_item(&own, "x"), Some(JsonValue::Object(m)) if m.len() == 2));
    assert!(matches!(FrameFun::find_node_by_data_item(&own, "y"), Some(JsonValue::Object(m)) if m.len() == 1));
}

fn entry(v_oad: &str, item: &str, start: u32) -> frame_codec::oad_map::ListItem {
    frame_codec::oad_map::ListItem {
        v_oad: v_oad.to_string(),
        item_07: item.to_string(),
        start_pos: start,
        len_07: 4,
        comment: None,
    }
}

#[test]
fn descriptors_are_looked_up_without_regard_to_case() {
    let config = frame_codec::oad_map::CompleteConfig {
        sub_configs: vec![
            (
                "50040200".to_string(),
                frame_codec::oad_map::SubConfig {
                    lists: vec![
                        ("day".to_string(), vec![entry("0010020A", "05060101", 0), entry("0020020a", "05060201", 4)]),
                        ("more".to_string(), vec![entry("0020020A", "other", 8), entry("2000ABCD", "05060301", 0)]),
                    ],
                },
            ),
            ("5006020A".to_string(), frame_codec::oad_map::SubConfig { lists: vec![] }),
        ],
    };
    let found = frame_codec::oad_map::TaskOadConfigManager::get_voad(&config, "50040200", "0020020A").unwrap();
    assert_eq!((found.item_07.as_str(), found.start_pos), ("05060201", 4));
    let found = frame_codec::oad_map::TaskOadConfigManager::get_voad(&config, "50040200", "2000abcd").unwrap();
    assert_eq!(found.item_07, "05060301");
    assert!(frame_codec::oad_map::TaskOadConfigManager::get_voad(&config, "5006020a", "0010020A").is_none());
    assert!(frame_codec::oad_map::TaskOadConfigManager::get_voad(&config, "50050200", "0010020A").is_none());
    assert!(frame_codec::oad_map::TaskOadConfigManager::get_voad(&config, "50040200", "FFFF").is_none());
    assert_eq!(config.get_config_by_master_oad("5006020A").map(|c| c.lists.len()), Some(0));
    assert!(config.get_config_by_master_oad("x").is_none());
}
