use frame_codec::annotated::AnnotatedField;
use frame_codec::codec::UpdateError;
use frame_codec::dlt645::{
    function_code_to_u8, u8_to_function_code, BuildRequest, DLT645Builder, DLT645Parser,
    FunctionCode,
};
use frame_codec::error::{BuildError, DecodeError, FrameError};
use frame_codec::frame_645::Frame645;
use frame_codec::frame_fun::FrameFun;
use frame_codec::interpreter::FrameAnalisyic;
use frame_codec::schema_find::QframeConfig;
use frame_codec::schema_update::ProtocolConfigManager;

fn frame_of(control: u8, data: &[u8]) -> Vec<u8> {
    let mut frame = vec![0x68, 0x11, 0x22, 0x33, 0x44, 0x55, 0x66, 0x68, control, data.len() as u8];
    frame.extend_from_slice(data);
    let cs = FrameFun::calculate_cs(&frame);
    frame.push(cs);
    frame.push(0x16);
    frame
}

fn check_field(f: &AnnotatedField, label: &str, raw: &str, description: &str, start: usize, end: usize) {
    assert_eq!(f.label, label);
    assert_eq!(f.raw_hex, raw);
    assert_eq!(f.description, description);
    assert_eq!((f.start, f.end), (start, end));
}

#[test]
fn a_frame_beyond_the_largest_index_is_refused() {
    let frame = frame_of(0x13, &[]);
    let mut repo = QframeConfig::new();
    let mut fields = Vec::new();
    assert_eq!(
        Frame645::analysis_645_frame_by_afn(&frame, &mut fields, usize::MAX - 3, "南网", &mut repo),
        Err(FrameError::InvalidFraming)
    );
    assert!(fields.is_empty());
}

fn decode(frame: &[u8]) -> Vec<AnnotatedField> {
    let mut repo = QframeConfig::new();
    let mut fields = Vec::new();
    let r = Frame645::analysis_645_frame_by_afn(frame, &mut fields, 0, "南网", &mut repo);
    assert!(r.is_ok());
    fields
}

#[test]
fn a_frame_needs_markers_and_its_declared_length() {
    let good = frame_of(0x11, &[0x33, 0x33, 0x34, 0x33]);
    assert!(Frame645::is_dlt645_frame(&good));
    let mut long = good.clone();
    long.insert(14, 0x33);
    assert!(!Frame645::is_dlt645_frame(&long));
    let mut bad_start = good.clone();
    bad_start[0] = 0x69;
    assert!(!Frame645::is_dlt645_frame(&bad_start));
    let mut bad_second = good.clone();
    bad_second[7] = 0x00;
    assert!(!Frame645::is_dlt645_frame(&bad_second));
    let mut bad_end = good.clone();
    let last = bad_end.len() - 1;
    bad_end[last] = 0x17;
    assert!(!Frame645::is_dlt645_frame(&bad_end));
    assert!(!Frame645::is_dlt645_frame(&good[..11]));
    assert!(!Frame645::is_dlt645_frame(&[]));
    assert!(!Frame645::is_dlt645_frame(&[0xFE; 20]));
}

#[test]
fn a_wrong_checksum_does_not_make_a_frame_invalid() {
    let mut frame = frame_of(0x11, &[0x33, 0x33, 0x34, 0x33]);
    let at = frame.len() - 2;
    frame[at] = frame[at].wrapping_add(1);
    assert!(Frame645::is_dlt645_frame(&frame));
}

#[test]
fn wake_up_bytes_count_in_the_length() {
    let bare = frame_of(0x13, &[]);
    for count in [0usize, 1, 3] {
        let mut frame = vec![0xFE; count];
        frame.extend_from_slice(&bare);
        assert!(Frame645::is_dlt645_frame(&frame));
        assert_eq!(frame.len(), bare[9] as usize + 12 + count);
    }
}

#[test]
fn the_example_read_request_is_decoded() {
    let mut frame = vec![0x68, 0xAA, 0xAA, 0xAA, 0xAA, 0xAA, 0xAA, 0x68, 0x11, 0x04, 0x33, 0x33, 0x33, 0x33];
    let cs = FrameFun::calculate_cs(&frame);
    frame.push(cs);
    frame.push(0x16);
    assert!(Frame645::is_dlt645_frame(&frame));
    let fields = decode(&frame);
    assert_eq!(fields.len(), 8);
    check_field(&fields[0], "帧起始符", "68", "电表规约：标识一帧信息的开始", 0, 1);
    check_field(&fields[1], "地址域", "AA AA AA AA AA AA", "电表通信地址：AAAAAAAAAAAA", 1, 7);
    check_field(&fields[2], "帧起始符", "68", "电表规约：标识一帧信息的开始", 7, 8);
    assert_eq!(fields[3].label, "控制码");
    assert_eq!(fields[3].raw_hex, "11");
    assert_eq!(fields[3].children.len(), 4);
    check_field(&fields[3].children[3], "D0~D4功能码", "11", "读数据", 8, 9);
    check_field(&fields[4], "数据长度", "04", "长度=4, 总长度=16(总长度=长度+12)", 9, 10);
    check_field(&fields[5], "数据域", "", "数据域传输时按字节进行加33H处理，接收后应按字节减33H处理", 10, 14);
    assert_eq!(fields[5].children.len(), 1);
    check_field(&fields[5].children[0], "数据标识编码", "33 33 33 33", "数据标识编码：[00000000]", 10, 14);
    check_field(&fields[6], "校验码", &format!("{:02X}", cs), "电表规约报文校验码正确", 14, 15);
    check_field(&fields[7], "结束符", "16", "电表规约报文结束符", 15, 16);
}

#[test]
fn the_example_bytes_as_printed_are_no_frame() {
    let mut frame = vec![0x68, 0xAA, 0xAA, 0xAA, 0xAA, 0xAA, 0xAA, 0x68, 0x11, 0x04, 0x33, 0x33, 0x34, 0x33, 0x33];
    let cs = FrameFun::calculate_cs(&frame);
    frame.push(cs);
    frame.push(0x16);
    assert!(!Frame645::is_dlt645_frame(&frame));
    let mut repo = QframeConfig::new();
    let mut fields = Vec::new();
    assert_eq!(
        Frame645::analysis_645_frame_by_afn(&frame, &mut fields, 0, "南网", &mut repo),
        Err(FrameError::InvalidFraming)
    );
    assert!(fields.is_empty());
}

#[test]
fn wake_up_bytes_shift_every_range() {
    let bare = frame_of(0x1B, &[0x35; 12]);
    let plain = decode(&bare);
    for count in [1usize, 3] {
        let mut frame = vec![0xFE; count];
        frame.extend_from_slice(&bare);
        let fields = decode(&frame);
        assert_eq!(fields.len(), plain.len() + 1);
        check_field(&fields[0], "唤醒符", &vec!["FE"; count].join(" "), "电表规约：电能表唤醒符", 0, count);
        for (shifted, original) in fields[1..].iter().zip(plain.iter()) {
            assert_shifted(shifted, original, count);
        }
    }
}

fn assert_shifted(shifted: &AnnotatedField, original: &AnnotatedField, by: usize) {
    assert_eq!(shifted.label, original.label);
    assert_eq!(shifted.raw_hex, original.raw_hex);
    assert_eq!(shifted.description, original.description);
    assert_eq!(shifted.start, original.start + by);
    assert_eq!(shifted.end, original.end + by);
    assert_eq!(shifted.children.len(), original.children.len());
    for (a, b) in shifted.children.iter().zip(original.children.iter()) {
        assert_shifted(a, b, by);
    }
}

#[test]
fn a_corrupted_byte_is_reported_by_the_checksum_field() {
    let good = frame_of(0x93, &[0x44, 0x55, 0x66, 0x77, 0x88, 0x99]);
    let mut bad = good.clone();
    bad[12] ^= 0x01;
    let a = decode(&good);
    let b = decode(&bad);
    assert_eq!(a.len(), b.len());
    let cs = a.len() - 2;
    assert_eq!(a[cs].description, "电表规约报文校验码正确");
    assert_eq!(b[cs].description, format!("电表规约校验码错误，应为：{:02X}", FrameFun::calculate_cs(&bad[..bad.len() - 2])));
    for (x, y) in a.iter().zip(b.iter()) {
        assert_eq!((x.start, x.end), (y.start, y.end));
    }
}

#[test]
fn a_baud_rate_word_with_two_bits_is_an_error() {
    let frame = frame_of(0x17, &[0x33 + 0x0C]);
    let fields = decode(&frame);
    let area = &fields[5];
    check_field(&area.children[0], "数据内容", "0C", "通信速率特征字：0C 通信速率：特征字错误(多个bit位为1)", 10, 11);
}

#[test]
fn baud_rate_words_name_their_rate() {
    let cases = [
        (0x02u8, "600bps"),
        (0x04, "1200bps"),
        (0x08, "2400bps"),
        (0x10, "4800bps"),
        (0x20, "9600bps"),
        (0x40, "19200bps"),
        (0x01, "保留"),
        (0x80, "保留"),
        (0x00, ""),
        (0xFF, "特征字错误(多个bit位为1)"),
    ];
    for (word, rate) in cases {
        assert_eq!(Frame645::baud_rate_name(word), rate);
        let frame = frame_of(0x97, &[word.wrapping_add(0x33)]);
        let fields = decode(&frame);
        assert_eq!(
            fields[5].children[0].description,
            format!("通信速率特征字：{:02X} 通信速率：{}", word, rate)
        );
    }
}

#[test]
fn error_responses_name_the_error() {
    let frame = frame_of(0xD1, &[0x33 + 0x04]);
    let fields = decode(&frame);
    check_field(&fields[5], "错误信息字", "37", "错误类型: 密码错误/未授权", 10, 11);
    assert_eq!(Frame645::error_word_name(0x02), "无请求数据");
    assert_eq!(Frame645::error_word_name(0x08), "通信速率不能更改");
    assert_eq!(Frame645::error_word_name(0x10), "年时区数超");
    assert_eq!(Frame645::error_word_name(0x20), "时段数超");
    assert_eq!(Frame645::error_word_name(0x40), "费率数超");
    assert_eq!(Frame645::error_word_name(0x81), "其他错误");
    assert_eq!(Frame645::error_word_name(0x00), "");
}

#[test]
fn address_frames_show_the_address() {
    let data = [0x44, 0x55, 0x66, 0x77, 0x88, 0x99];
    let fields = decode(&frame_of(0x93, &data));
    check_field(&fields[5], "数据域", "", "数据域传输时按字节进行加33H处理，接收后应按字节减33H处理", 10, 16);
    check_field(&fields[5].children[0], "数据内容", "44 55 66 77 88 99", "通信地址：665544332211", 10, 16);
    let fields = decode(&frame_of(0x15, &data));
    check_field(&fields[5].children[0], "数据内容", "44 55 66 77 88 99", "写通信地址：665544332211", 10, 16);
}

#[test]
fn broadcast_time_is_shown() {
    let data = FrameFun::frame_add_33h(&[0x59, 0x30, 0x12, 0x25, 0x06, 0x24]);
    let fields = decode(&frame_of(0x08, &data));
    assert_eq!(fields[5].children[0].description, "校时时间：24年06月25日12时30分59秒");
}

#[test]
fn freeze_command_is_shown() {
    let data = FrameFun::frame_add_33h(&[0x30, 0x12, 0x99, 0x99]);
    let fields = decode(&frame_of(0x16, &data));
    check_field(
        &fields[5].children[0],
        "数据内容",
        &FrameFun::get_data_str_with_space(&data),
        "冻结命令：99991230 表示冻结时间为：每日12时30分",
        10,
        14,
    );
}

#[test]
fn password_change_is_shown() {
    let data = FrameFun::frame_add_33h(&[0x01, 0x0C, 0x00, 0x04, 0x02, 0x11, 0x22, 0x33, 0x04, 0x44, 0x55, 0x66]);
    let fields = decode(&frame_of(0x18, &data));
    let area = &fields[5];
    assert_eq!((area.start, area.end), (10, 22));
    let content = &area.children[0];
    check_field(content, "数据内容", &FrameFun::get_data_str_with_space(&data), "密码设置", 10, 22);
    assert_eq!(content.children.len(), 3);
    assert_eq!(content.children[0].description, "数据标识[04000C01]");
    assert_eq!(content.children[1].description, "原密码权限：02 原密码：332211");
    assert_eq!(content.children[2].description, "新密码权限：04 新密码：665544");
    assert_eq!((content.children[2].start, content.children[2].end), (18, 22));
    let fields = decode(&frame_of(0x98, &data[8..]));
    assert_eq!(fields[5].children[0].children[0].description, "新密码权限：04 新密码：665544");
}

#[test]
fn resets_are_shown() {
    let data = FrameFun::frame_add_33h(&[0x02, 0x11, 0x22, 0x33, 0x78, 0x56, 0x34, 0x12]);
    let fields = decode(&frame_of(0x19, &data));
    let content = &fields[5].children[0];
    check_field(content, "数据内容", &FrameFun::get_data_str_with_space(&data), "最大需量清零", 10, 18);
    assert_eq!(content.children[0].description, "权限：02 密码：332211");
    assert_eq!(content.children[1].description, "操作者代码：12345678");
    let fields = decode(&frame_of(0x1A, &data));
    assert_eq!(fields[5].children[0].description, "电表清零");
    let mut event = data.clone();
    event.extend_from_slice(&[0x32; 4]);
    let fields = decode(&frame_of(0x1B, &event));
    let content = &fields[5].children[0];
    assert_eq!(content.description, "事件清零");
    assert_eq!(content.children[2].description, "事件清零：[FFFFFFFF] - 事件总清零");
    event[11] = 0x33;
    let fields = decode(&frame_of(0x1B, &event));
    assert_eq!(fields[5].children[0].children[2].description, "事件清零：[00FFFFFF] - 分项事件清零");
}

#[test]
fn unknown_control_codes_show_their_data() {
    let data = [0x34, 0x35];
    let fields = decode(&frame_of(0x1F, &data));
    check_field(&fields[5].children[0], "数据内容", "34 35", "数据域数据：0201", 10, 12);
    assert_eq!(fields[3].children[3].description, "未知");
}

#[test]
fn a_frame_too_short_for_its_layout_shows_its_data() {
    let fields = decode(&frame_of(0x18, &[0x34, 0x35]));
    check_field(&fields[5].children[0], "数据内容", "34 35", "数据域数据：0201", 10, 12);
    let fields = decode(&frame_of(0x11, &[]));
    check_field(&fields[5], "数据域", "", "数据域传输时按字节进行加33H处理，接收后应按字节减33H处理", 10, 10);
}

#[test]
fn handlers_refuse_short_frames() {
    let mut list = Vec::new();
    let short = [0u8; 11];
    assert_eq!(Frame645::funanalysis_invalid_frame(&short, &mut list, 0), Err(DecodeError::TooShort));
    assert_eq!(Frame645::funanalyze_read_err_frame(&short, &mut list, 0), Err(DecodeError::TooShort));
    assert_eq!(Frame645::funanalysis_read_address_frame(&short, &mut list, 0), Err(DecodeError::TooShort));
    assert_eq!(Frame645::funanalysis_write_address_frame(&short, &mut list, 0), Err(DecodeError::TooShort));
    assert_eq!(Frame645::funanalysis_broadcast_time_frame(&short, &mut list, 0), Err(DecodeError::TooShort));
    assert_eq!(Frame645::funanalysis_write_frozen_time_frame(&short, &mut list, 0), Err(DecodeError::TooShort));
    assert_eq!(Frame645::funanalysis_write_baud_rate_frame(&short, &mut list, 0), Err(DecodeError::TooShort));
    assert_eq!(Frame645::funanalysis_write_password_frame(&short, &mut list, 0), Err(DecodeError::TooShort));
    assert_eq!(Frame645::funanalysis_write_password_response_frame(&short, &mut list, 0), Err(DecodeError::TooShort));
    assert_eq!(Frame645::funanalysis_maximum_demand_reset_frame(&short, &mut list, 0), Err(DecodeError::TooShort));
    assert_eq!(Frame645::funanalysis_meter_reset_frame(&short, &mut list, 0), Err(DecodeError::TooShort));
    assert_eq!(Frame645::funanalysis_event_reset_frame(&short, &mut list, 0), Err(DecodeError::TooShort));
    assert_eq!(Frame645::funanalysis_end_frame(&[0x16], &mut list, 0), Err(DecodeError::TooShort));
    assert_eq!(Frame645::funanalyze_write_replay_frame(&[0, 0], &mut list, 0), Err(DecodeError::TooShort));
    assert_eq!(Frame645::analysis_head_frame(&[0xFE, 0x68], &mut list, 0), Err(DecodeError::TooShort));
    assert!(list.is_empty());
}

#[test]
fn write_reply_is_shown() {
    let mut list = Vec::new();
    assert_eq!(Frame645::funanalyze_write_replay_frame(&[0x68, 0x00, 0x55, 0x16], &mut list, 5), Ok(()));
    check_field(&list[0], "写数据应答", "00", "正常应答", 6, 7);
    assert_eq!(Frame645::funanalyze_write_replay_frame(&[0x68, 0x01, 0x55, 0x16], &mut list, 5), Ok(()));
    check_field(&list[1], "写数据应答", "01", "写数据错误", 6, 7);
}

#[test]
fn control_code_parts() {
    let fields = decode(&frame_of(0x91, &[0x33, 0x33, 0x34, 0x33]));
    let control = &fields[3];
    check_field(control, "控制码", "91", "主站请求：读数据", 8, 9);
    check_field(&control.children[0], "D7传送反向", "1", "主站发出的命令帧", 8, 9);
    check_field(&control.children[1], "D6传送反向", "0", "从站正常应答", 8, 9);
    check_field(&control.children[2], "D5传送反向", "0", "无后续数据帧", 8, 9);
    let fields = decode(&frame_of(0x72, &[]));
    let control = &fields[3];
    assert_eq!(control.description, "电表返回：读后续数据");
    assert_eq!(control.children[1].description, "从站异常应答");
    assert_eq!(control.children[2].description, "有后续数据帧");
    check_field(&control.children[3], "D0~D4功能码", "12", "读后续数据", 8, 9);
}

#[test]
fn function_codes_round_trip() {
    assert_eq!(u8_to_function_code(0x11), Some(FunctionCode::ReadData));
    assert_eq!(u8_to_function_code(0x9B), Some(FunctionCode::EventResetResponse));
    assert_eq!(u8_to_function_code(0x12), None);
    for byte in 0..=255u8 {
        if let Some(code) = u8_to_function_code(byte) {
            assert_eq!(function_code_to_u8(code), byte);
        }
    }
}

#[test]
fn read_frame_is_built() {
    let builder = DLT645Builder::new();
    let frame = builder.build_read_data_frame("112233445566", "00010000").unwrap();
    let mut expected = vec![0x68, 0x66, 0x55, 0x44, 0x33, 0x22, 0x11, 0x68, 0x11, 0x04, 0x33, 0x33, 0x34, 0x33];
    expected.push(FrameFun::calculate_cs(&expected));
    expected.push(0x16);
    assert_eq!(frame, expected);
    assert!(Frame645::is_dlt645_frame(&frame));
}

#[test]
fn write_frame_is_built() {
    let builder = DLT645Builder::new();
    let frame = builder.build_write_data_frame("000000000001", "04000101", &[0x00, 0xCD]).unwrap();
    let mut expected = vec![0x68, 0x01, 0, 0, 0, 0, 0, 0x68, 0x14, 0x06, 0x34, 0x34, 0x33, 0x37, 0x33, 0x00];
    expected.push(FrameFun::calculate_cs(&expected));
    expected.push(0x16);
    assert_eq!(frame, expected);
    assert_eq!(
        builder.build_write_data_frame("000000000001", "04000101", &[0u8; 252]),
        Err(BuildError::PayloadTooLong)
    );
    assert_eq!(builder.build_write_data_frame("000000000001", "04000101", &[0u8; 251]).unwrap().len(), 267);
}

#[test]
fn read_address_frame_is_built() {
    let frame = DLT645Builder::new().build_read_address_frame().unwrap();
    let mut expected = vec![0x68, 0xAA, 0xAA, 0xAA, 0xAA, 0xAA, 0xAA, 0x68, 0x13, 0x00];
    expected.push(FrameFun::calculate_cs(&expected));
    expected.push(0x16);
    assert_eq!(frame, expected);
}

#[test]
fn builder_refuses_bad_text() {
    let builder = DLT645Builder::new();
    assert_eq!(builder.build_read_data_frame("11223344556", "00010000"), Err(BuildError::InvalidAddress));
    assert_eq!(builder.build_read_data_frame("1122334455667", "00010000"), Err(BuildError::InvalidAddress));
    assert_eq!(builder.build_read_data_frame("11223344556G", "00010000"), Err(BuildError::InvalidAddress));
    assert_eq!(builder.build_read_data_frame("112233445566", "0001000"), Err(BuildError::InvalidIdentifier));
    assert_eq!(builder.build_read_data_frame("112233445566", "0001000x"), Err(BuildError::InvalidIdentifier));
    assert_eq!(builder.parse_address("aAbBcCdDeEfF"), Ok(vec![0xFF, 0xEE, 0xDD, 0xCC, 0xBB, 0xAA]));
    assert_eq!(builder.parse_data_id("04000101"), Ok(vec![0x01, 0x01, 0x00, 0x04]));
    assert_eq!(builder.parse_data_id(""), Err(BuildError::InvalidIdentifier));
}

#[test]
fn built_frames_carry_their_checksum() {
    let builder = DLT645Builder::new();
    let frames = vec![
        builder.build_read_data_frame("112233445566", "00010000").unwrap(),
        builder.build_write_data_frame("AABBCCDDEEFF", "04000101", &[1, 2, 3]).unwrap(),
        builder.build_read_address_frame().unwrap(),
    ];
    for frame in frames {
        let at = frame.len() - 2;
        assert_eq!(FrameFun::calculate_cs(&frame[..at]), frame[at]);
        assert_eq!(DLT645Builder::calculate_checksum(&frame[..at]), frame[at]);
        assert_eq!(DLT645Parser::calculate_checksum(&frame[..at]), frame[at]);
        assert!(DLT645Parser::validate_frame(&frame));
    }
}

#[test]
fn what_is_read_back_builds_the_same_frame() {
    let builder = DLT645Builder::new();
    for (address, id) in [("112233445566", "00010000"), ("aabbccddeeff", "04000c01"), ("000000000000", "FFFFFFFF")] {
        let frame = builder.build_read_data_frame(address, id).unwrap();
        let (a, d) = DLT645Parser::read_request_of(&frame).unwrap();
        assert_eq!(a, address.to_uppercase());
        assert_eq!(d, id.to_uppercase());
        assert_eq!(builder.build_read_data_frame(&a, &d).unwrap(), frame);
    }
}

#[test]
fn read_request_of_other_frames_is_none() {
    let builder = DLT645Builder::new();
    assert_eq!(DLT645Parser::read_request_of(&builder.build_read_address_frame().unwrap()), None);
    let write = builder.build_write_data_frame("112233445566", "00010000", &[]).unwrap();
    assert_eq!(DLT645Parser::read_request_of(&write), None);
    let mut woken = vec![0xFE];
    woken.extend(builder.build_read_data_frame("112233445566", "00010000").unwrap());
    assert_eq!(DLT645Parser::read_request_of(&woken), None);
    assert_eq!(DLT645Parser::read_request_of(&[]), None);
}

#[test]
fn parser_reads_fields() {
    let data = [0x68, 0x66, 0x55, 0x44, 0x33, 0x22, 0x11, 0x68];
    assert_eq!(DLT645Parser::parse_address(&data, 1), Some("112233445566".to_string()));
    assert_eq!(DLT645Parser::parse_address(&data, 3), None);
    assert_eq!(DLT645Parser::parse_data_identifier(&[0x01, 0x01, 0x00, 0x04], 0), Some("04000101".to_string()));
    assert_eq!(DLT645Parser::parse_data_identifier(&[0x01, 0x01, 0x00], 0), None);
    assert_eq!(DLT645Parser::parse_data_field(&[0x33, 0x34, 0x32], 1, 2), Some(vec![0x01, 0xFF]));
    assert_eq!(DLT645Parser::parse_data_field(&[0x33, 0x34, 0x32], 2, 2), None);
}

#[test]
fn requests_are_built() {
    let builder = DLT645Builder::new();
    let read = BuildRequest::ReadData { address: "112233445566".to_string(), data_id: "00010000".to_string() };
    assert_eq!(builder.build_from_json(&read), builder.build_read_data_frame("112233445566", "00010000"));
    let write = BuildRequest::WriteData {
        address: "112233445566".to_string(),
        data_id: "00010000".to_string(),
        data: vec![1, 2],
    };
    assert_eq!(
        builder.build_from_json(&write),
        builder.build_write_data_frame("112233445566", "00010000", &[1, 2])
    );
    assert_eq!(builder.build_from_json(&BuildRequest::ReadAddress), builder.build_read_address_frame());
    let bad = BuildRequest::ReadData { address: "1".to_string(), data_id: "00010000".to_string() };
    assert_eq!(builder.build_from_json(&bad), Err(BuildError::InvalidAddress));
}

#[test]
fn parse_needs_a_known_protocol_and_a_schema() {
    let frame = frame_of(0x13, &[]);
    let mut manager = ProtocolConfigManager::new();
    assert_eq!(FrameAnalisyic::parse(&mut manager, &frame, "modbus", "南网").err(), Some(FrameError::SchemaNotFound));
    assert_eq!(FrameAnalisyic::parse(&mut manager, &frame, "DLT/645-2007", "南网").err(), Some(FrameError::SchemaNotFound));
    assert_eq!(FrameAnalisyic::parse(&mut manager, &frame, "CSG13", "南网").err(), Some(FrameError::UnsupportedProtocol));
    manager.dlt645 = Some(QframeConfig::new());
    assert_eq!(FrameAnalisyic::parse(&mut manager, &frame[1..], "dlt/645", "南网").err(), Some(FrameError::InvalidFraming));
    let root = FrameAnalisyic::parse(&mut manager, &frame, "dlt/645", "南网").unwrap();
    check_field(&root, "DLT/645-2007", &FrameFun::get_data_str_with_space(&frame), "", 0, frame.len());
    assert_eq!(root.children.len(), 8);
    assert!(FrameAnalisyic::validate(&frame));
    assert!(!FrameAnalisyic::validate(&frame[1..]));
}

#[test]
fn update_errors_have_messages() {
    assert_eq!(UpdateError::UnknownProtocol.message(), "不支持的协议类型");
    assert_eq!(UpdateError::NotLoaded(frame_codec::schema_update::ProtocolKind::Csg13).message(), "CSG13 配置错误");
}

#[test]
fn messages_are_built() {
    let frame = DLT645Parser::build("11 22 33 44 55 66", 0x14, "0400 0101", "01 02").unwrap();
    let mut expected = vec![0x68, 0x66, 0x55, 0x44, 0x33, 0x22, 0x11, 0x68, 0x14, 0x06, 0x34, 0x34, 0x33, 0x37, 0x34, 0x35];
    expected.push(FrameFun::calculate_cs(&expected));
    expected.push(0x16);
    assert_eq!(frame, expected);
    assert_eq!(DLT645Parser::build("112233445566", 0x11, "04000101", "").unwrap().len(), 16);
    assert_eq!(DLT645Parser::build("1122334455", 0x11, "04000101", ""), Err(BuildError::InvalidAddress));
    assert_eq!(DLT645Parser::build("112233445566", 0x11, "040001", ""), Err(BuildError::InvalidIdentifier));
    assert_eq!(DLT645Parser::build("112233445566", 0x11, "04000101", "0"), Err(BuildError::InvalidData));
    assert_eq!(DLT645Parser::build("112233445566", 0x11, "04000101", "0g"), Err(BuildError::InvalidData));
    assert_eq!(DLT645Parser::build("112233445566", 0x11, "0400010", "0g"), Err(BuildError::InvalidData));
    assert_eq!(DLT645Parser::build("112233445566", 0x14, "04000101", &"00".repeat(252)), Err(BuildError::PayloadTooLong));
    assert_eq!(DLT645Parser::parse_address_str("11 22 33 44 55 66"), Ok(vec![0x66, 0x55, 0x44, 0x33, 0x22, 0x11]));
    assert_eq!(DLT645Parser::parse_data_identifier_str("04 00 01 01"), Ok(vec![0x01, 0x01, 0x00, 0x04]));
    assert_eq!(DLT645Parser::parse_data_str(""), Ok(vec![]));
    assert_eq!(DLT645Parser::parse_data_str("0A 0b"), Ok(vec![0x0A, 0x0B]));
}

#[test]
fn an_operation_names_its_request() {
    let read = DLT645Builder::request_of("read_data", "112233445566", "00010000", &[7]);
    assert!(matches!(
        &read,
        Ok(BuildRequest::ReadData { address, data_id }) if address == "112233445566" && data_id == "00010000"
    ));
    let builder = DLT645Builder::new();
    assert_eq!(
        builder.build_from_json(&read.unwrap()),
        builder.build_read_data_frame("112233445566", "00010000")
    );
    let write = DLT645Builder::request_of("write_data", "112233445566", "04000101", &[0x12, 0x34]);
    assert!(matches!(
        &write,
        Ok(BuildRequest::WriteData { address, data_id, data })
            if address == "112233445566" && data_id == "04000101" && data == &vec![0x12, 0x34]
    ));
    assert!(matches!(
        DLT645Builder::request_of("read_address", "", "", &[]),
        Ok(BuildRequest::ReadAddress)
    ));
    assert!(matches!(
        DLT645Builder::request_of("erase", "112233445566", "00010000", &[]),
        Err(BuildError::Unsupported)
    ));
    assert!(matches!(
        DLT645Builder::request_of("READ_DATA", "112233445566", "00010000", &[]),
        Err(BuildError::Unsupported)
    ));
    assert!(matches!(DLT645Builder::request_of("", "", "", &[]), Err(BuildError::Unsupported)));
}
