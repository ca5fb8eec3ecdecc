use frame_codec::error::DecodeError;
use frame_codec::frame_fun::FrameFun;
use frame_codec::frame_text::{bytes_to_hex, hex_to_bytes};

#[test]
fn checksum_is_sum_modulo_256() {
    assert_eq!(FrameFun::calculate_cs(&[0x68, 0xAA, 0xFF]), 0x11);
    assert_eq!(FrameFun::calculate_cs(&[]), 0);
    assert_eq!(FrameFun::calculate_cs(&[0xFF; 256]), 0);
}

#[test]
fn bias_wraps_modulo_256() {
    assert_eq!(FrameFun::frame_add_33h(&[0x00, 0xCC, 0xCD, 0xFF]), vec![0x33, 0xFF, 0x00, 0x32]);
    assert_eq!(FrameFun::frame_delete_33h(&[0x33, 0xFF, 0x00, 0x32]), vec![0x00, 0xCC, 0xCD, 0xFF]);
    assert_eq!(FrameFun::unbias(0x32), 0xFF);
    assert_eq!(FrameFun::bias(0xFF), 0x32);
}

#[test]
fn bias_added_and_removed_gives_the_bytes_back() {
    let all: Vec<u8> = (0..=255u8).collect();
    assert_eq!(FrameFun::frame_delete_33h(&FrameFun::frame_add_33h(&all)), all);
    assert_eq!(FrameFun::frame_add_33h(&FrameFun::frame_delete_33h(&all)), all);
}

#[test]
fn bytes_to_decimal_list_copies() {
    assert_eq!(FrameFun::bytes_to_decimal_list(&[1, 2, 255]), Ok(vec![1, 2, 255]));
}

#[test]
fn get_frame_from_bytes_is_lower_case_hex() {
    assert_eq!(FrameFun::get_frame_from_bytes(&[0x68, 0xAB, 0x0F]), Ok("68ab0f".to_string()));
    assert_eq!(FrameFun::get_frame_from_bytes(&[]), Ok(String::new()));
}

#[test]
fn get_hex_frame_reads_pairs_and_skips_blanks() {
    assert_eq!(FrameFun::get_hex_frame("68 aA\n16"), Some(vec![0x68, 0xAA, 0x16]));
    assert_eq!(FrameFun::get_hex_frame(""), Some(vec![]));
    assert_eq!(FrameFun::get_hex_frame("6"), None);
    assert_eq!(FrameFun::get_hex_frame("6G"), None);
    assert_eq!(FrameFun::get_hex_frame("+1"), None);
}

#[test]
fn get_frame_list_from_str_tells_errors_apart() {
    assert_eq!(FrameFun::get_frame_list_from_str("0102"), Ok(vec![1, 2]));
    assert_eq!(FrameFun::get_frame_list_from_str("010"), Err(DecodeError::TooShort));
    assert_eq!(FrameFun::get_frame_list_from_str("01zz"), Err(DecodeError::InvalidDigit));
}

#[test]
fn prase_text_to_frame_refuses_what_is_no_digit() {
    let mut frame = vec![0xEE];
    assert_eq!(FrameFun::prase_text_to_frame("01 0A\nf", &mut frame), Ok(2));
    assert_eq!(frame, vec![0xEE, 0x01, 0x0A, 0x0F]);
    assert_eq!(FrameFun::prase_text_to_frame("01 zz 0A f", &mut frame), Err(DecodeError::InvalidDigit));
    assert_eq!(FrameFun::prase_text_to_frame("0g", &mut frame), Err(DecodeError::InvalidDigit));
    assert_eq!(frame, vec![0xEE, 0x01, 0x0A, 0x0F]);
    assert_eq!(FrameFun::prase_text_to_frame(" \n", &mut frame), Ok(0));
    assert_eq!(frame, vec![0xEE, 0x01, 0x0A, 0x0F]);
}

#[test]
fn get_format_str_groups_in_upper_case() {
    assert_eq!(FrameFun::get_format_str("68aa 1\n6"), "68 AA 16 ");
    assert_eq!(FrameFun::get_format_str("abc"), "AB C ");
    assert_eq!(FrameFun::get_format_str(""), "");
}

#[test]
fn string_groups_in_order_and_reversed() {
    assert_eq!(FrameFun::str_order_with_space("00010203"), "00 01 02 03");
    assert_eq!(FrameFun::str_reverse_with_space("00010203"), "03 02 01 00");
    assert_eq!(FrameFun::str_reverse_with_space("abcde"), "E CD AB");
    assert_eq!(FrameFun::str_order_with_space("abcde"), "AB CD E");
    assert_eq!(FrameFun::str_order_with_space(""), "");
}

#[test]
fn data_strings() {
    let data = [0x34, 0x33, 0xFF];
    assert_eq!(FrameFun::get_data_str_with_space(&data), "34 33 FF");
    assert_eq!(FrameFun::get_data_str_order(&data), "3433FF");
    assert_eq!(FrameFun::get_data_str_reverser(&data), "FF3334");
    assert_eq!(FrameFun::get_data_str_reverser_with_space(&data), "FF 33 34");
    assert_eq!(FrameFun::get_data_str_delete_33h_reverse(&data), "CC0001");
    assert_eq!(FrameFun::get_data_item_str_delete_33h_order(&data), "0100CC");
    assert_eq!(FrameFun::get_data_normal_reverser(&data, true, false), "CC0001");
    assert_eq!(FrameFun::get_data_normal_reverser(&data, false, false), "FF3334");
    assert_eq!(FrameFun::get_data_str(&data, true, true, true), "CC 00 01");
    assert_eq!(FrameFun::get_data_str(&data, false, false, false), "3433FF");
    assert_eq!(FrameFun::get_data_str(&[], false, false, true), "");
}

#[test]
fn bit_array_is_most_significant_first() {
    assert_eq!(FrameFun::get_bit_array(0b1010_0001), vec![1, 0, 1, 0, 0, 0, 0, 1]);
    assert_eq!(FrameFun::get_bit_array(0), vec![0; 8]);
}

#[test]
fn exactly_one_bit() {
    assert!(FrameFun::is_only_one_bit_set(0x40));
    assert!(FrameFun::is_only_one_bit_set(0x01));
    assert!(!FrameFun::is_only_one_bit_set(0x00));
    assert!(!FrameFun::is_only_one_bit_set(0x41));
    assert!(!FrameFun::is_only_one_bit_set(0xFF));
}

#[test]
fn set_and_clear_bits() {
    let mut bits = vec![0u8, 0, 0];
    FrameFun::set_bit_value(&mut bits, 9);
    assert_eq!(bits, vec![0, 2, 0]);
    FrameFun::set_bit_value(&mut bits, 23);
    assert_eq!(bits, vec![0, 2, 0x80]);
    FrameFun::clr_bit_value(&mut bits, 9);
    assert_eq!(bits, vec![0, 0, 0x80]);
    FrameFun::set_bit_value(&mut bits, 24);
    FrameFun::set_bit_value(&mut bits, 256);
    FrameFun::clr_bit_value(&mut bits, 1000);
    assert_eq!(bits, vec![0, 0, 0x80]);
}

#[test]
fn decimal_to_bcd_byte_checks_range() {
    assert_eq!(FrameFun::decimal_to_bcd_byte(0), Ok(0x00));
    assert_eq!(FrameFun::decimal_to_bcd_byte(45), Ok(0x45));
    assert_eq!(FrameFun::decimal_to_bcd_byte(99), Ok(0x99));
    assert_eq!(FrameFun::decimal_to_bcd_byte(100), Err(DecodeError::OutOfRange));
}

#[test]
fn all_equal_checks() {
    assert!(FrameFun::is_array_all_ffs(&[0xFF, 0xFF]));
    assert!(FrameFun::is_array_all_ffs(&[]));
    assert!(!FrameFun::is_array_all_ffs(&[0xFF, 0xFE]));
    assert!(FrameFun::is_array_all_zeros(&[0, 0]));
    assert!(!FrameFun::is_array_all_zeros(&[0, 1]));
    assert!(FrameFun::is_all_elements_equal(&[0x32; 4], 0x32));
    assert!(!FrameFun::is_all_elements_equal(&[0x32, 0x33], 0x32));
}

#[test]
fn bintodecimal_is_little_endian() {
    assert_eq!(FrameFun::bintodecimal(&[0x01, 0x02]), Ok(0x0201));
    assert_eq!(FrameFun::bintodecimal(&[0xFF; 8]), Ok(u64::MAX));
    assert_eq!(FrameFun::bintodecimal(&[1, 0, 0, 0, 0, 0, 0, 0, 0, 0]), Ok(1));
    assert_eq!(FrameFun::bintodecimal(&[]), Err(DecodeError::Empty));
    assert_eq!(FrameFun::bintodecimal(&[0, 0, 0, 0, 0, 0, 0, 0, 1]), Err(DecodeError::OutOfRange));
}

#[test]
fn hex_array_to_int_values() {
    assert_eq!(FrameFun::hex_array_to_int(&[0x34, 0x12], false), Ok(0x1234));
    assert_eq!(FrameFun::hex_array_to_int(&[0x34, 0x33], true), Ok(0x0001));
    assert_eq!(FrameFun::hex_array_to_int(&[], false), Err(DecodeError::Empty));
    assert_eq!(FrameFun::hex_array_to_int(&[0, 0, 0, 0, 1], false), Err(DecodeError::OutOfRange));
}

#[test]
fn bcd_to_int_values() {
    assert_eq!(FrameFun::bcd_to_int(&[0x34, 0x12], false), Ok(1234));
    assert_eq!(FrameFun::bcd_to_int(&[0x67, 0x45], true), Ok(1234));
    assert_eq!(FrameFun::bcd_to_int(&[], false), Ok(0));
    assert_eq!(FrameFun::bcd_to_int(&[0x1A], false), Ok(20));
    assert_eq!(FrameFun::bcd_to_int(&[0x99; 5], false), Err(DecodeError::OutOfRange));
    assert_eq!(FrameFun::bcd2int(0x45), 45);
}

#[test]
fn bcd_arrays() {
    assert_eq!(FrameFun::bcd_array_to_decimal_array(&[0x12, 0x99, 0xFF]), vec![12, 99, 165]);
    assert_eq!(FrameFun::binary_to_bcd(&[12, 99, 255]), vec![0x12, 0x99, 0x95]);
    assert_eq!(FrameFun::binary2bcd(45), 0x45);
    assert_eq!(FrameFun::int16_to_bcd(0x1234), vec![0x34, 0x12]);
}

#[test]
fn cosem_is_big_endian_modulo_32_bits() {
    assert_eq!(FrameFun::cosem_bin2_int32u(&[0x01, 0x02, 0x03]), 0x010203);
    assert_eq!(FrameFun::cosem_bin2_int32u(&[0xAA, 0x01, 0x02, 0x03, 0x04]), 0x01020304);
    assert_eq!(FrameFun::cosem_bin2_int32u(&[]), 0);
}

#[test]
fn item_to_di_appends_low_byte_first() {
    let mut frame = vec![0x68];
    assert_eq!(FrameFun::item_to_di(0x04000101, &mut frame), 4);
    assert_eq!(frame, vec![0x68, 0x01, 0x01, 0x00, 0x04]);
}

#[test]
fn wake_up_bytes_are_counted() {
    assert_eq!(FrameFun::get_frame_fe_count(&[0xFE, 0xFE, 0x68, 0xFE]), 2);
    assert_eq!(FrameFun::get_frame_fe_count(&[0x68]), 0);
    assert_eq!(FrameFun::get_frame_fe_count(&[0xFE, 0xFE]), 2);
    assert_eq!(FrameFun::get_frame_fe_count(&[]), 0);
}

#[test]
fn bcd_to_decimal_prints_every_digit() {
    assert_eq!(FrameFun::bcd_to_decimal(&[0x67, 0x45, 0x23, 0x01], 2, false, false), Ok("012345.67".to_string()));
    assert_eq!(FrameFun::bcd_to_decimal(&[0x67, 0x45, 0x23, 0x01], 0, false, false), Ok("01234567".to_string()));
    assert_eq!(FrameFun::bcd_to_decimal(&[0x9A, 0x78, 0x56, 0x34], 2, true, false), Ok("012345.67".to_string()));
    assert_eq!(FrameFun::bcd_to_decimal(&[0x05], 3, false, false), Ok("0.005".to_string()));
    assert_eq!(FrameFun::bcd_to_decimal(&[0x05], 2, false, false), Ok("0.05".to_string()));
    assert_eq!(FrameFun::bcd_to_decimal(&[0x05], 1, false, false), Ok("0.5".to_string()));
}

#[test]
fn bcd_to_decimal_sign_invalid_and_errors() {
    assert_eq!(FrameFun::bcd_to_decimal(&[0x34, 0x92], 1, false, true), Ok("-123.4".to_string()));
    assert_eq!(FrameFun::bcd_to_decimal(&[0x34, 0x12], 1, false, true), Ok("123.4".to_string()));
    assert_eq!(FrameFun::bcd_to_decimal(&[0xFF, 0xFF], 1, false, false), Ok("无效数据".to_string()));
    assert_eq!(FrameFun::bcd_to_decimal(&[], 1, false, false), Ok("无效数据".to_string()));
    assert_eq!(FrameFun::bcd_to_decimal(&[0x1A], 0, false, false), Err(DecodeError::InvalidDigit));
    assert_eq!(FrameFun::bcd_to_decimal(&[0x34, 0x92], 1, false, false), Ok("923.4".to_string()));
}

#[test]
fn bin_to_decimal_pads_to_two_characters_per_byte() {
    assert_eq!(FrameFun::bin_to_decimal(&[0x39, 0x30], 2, false, false, false), Ok("123.45".to_string()));
    assert_eq!(FrameFun::bin_to_decimal(&[0x05, 0x00], 2, false, false, false), Ok("00.05".to_string()));
    assert_eq!(FrameFun::bin_to_decimal(&[0x05, 0x00], 0, false, false, false), Ok("0005".to_string()));
    assert_eq!(FrameFun::bin_to_decimal(&[0xFF, 0xFF], 0, false, false, false), Ok("65535".to_string()));
    assert_eq!(FrameFun::bin_to_decimal(&[0xFF, 0xFF], 0, false, false, true), Ok("无效数据".to_string()));
    assert_eq!(FrameFun::bin_to_decimal(&[0x05, 0x80], 0, false, true, false), Ok("-0005".to_string()));
    assert_eq!(FrameFun::bin_to_decimal(&[0x38, 0x33], 0, true, false, false), Ok("0005".to_string()));
    assert_eq!(FrameFun::bin_to_decimal(&[], 0, false, false, false), Err(DecodeError::Empty));
    assert_eq!(FrameFun::bin_to_decimal(&[0xFF; 9], 0, false, false, false), Err(DecodeError::OutOfRange));
}

#[test]
fn ports_and_addresses() {
    assert_eq!(FrameFun::prase_port(&[0x1F, 0x90]), "8080");
    assert_eq!(FrameFun::prase_port(&[0x90, 0x1F]), "36895");
    assert_eq!(FrameFun::prase_port(&[0x90]), "");
    assert_eq!(FrameFun::prase_port(&[0x00, 0x1F, 0x90]), "");
    assert_eq!(FrameFun::parse_port(&[0x1F, 0x90]), Ok("8080".to_string()));
    assert_eq!(FrameFun::parse_port(&[0x00, 0x1F, 0x90]), Ok("8080".to_string()));
    assert_eq!(FrameFun::parse_port(&[0x90]), Ok(String::new()));
    assert_eq!(FrameFun::parse_port(&[0xFF; 9]), Err(DecodeError::OutOfRange));
    assert_eq!(FrameFun::prase_ip_str(&[1, 0, 168, 192]), "192.168.0.1");
    assert_eq!(FrameFun::prase_ip_str(&[1, 0, 168]), "");
    assert_eq!(FrameFun::prase_ip_str(&[1, 0, 168, 192, 7]), "");
    assert_eq!(FrameFun::parse_ip_str(&[1, 0, 168, 192, 7]), "192.168.0.1");
    assert_eq!(FrameFun::parse_ip_str(&[255, 255, 255]), "");
}

#[test]
fn extract_bits_gives_the_range_most_significant_first() {
    assert_eq!(FrameFun::extract_bits(0, 3, 0b1010), Ok("1010".to_string()));
    assert_eq!(FrameFun::extract_bits(1, 2, 0b1010), Ok("01".to_string()));
    assert_eq!(FrameFun::extract_bits(4, 7, 0b1010), Ok("0000".to_string()));
    assert_eq!(FrameFun::extract_bits(31, 31, 0x8000_0000), Ok("1".to_string()));
    assert_eq!(FrameFun::extract_bits(0, 31, 1), Ok(format!("{:032b}", 1)));
    assert_eq!(FrameFun::extract_bits(3, 2, 0), Err(DecodeError::OutOfRange));
    assert_eq!(FrameFun::extract_bits(0, 32, 0), Err(DecodeError::OutOfRange));
}

#[test]
fn freeze_times() {
    assert_eq!(FrameFun::parse_freeze_time(&[0x99, 0x99, 0x99, 0x99]), "瞬时冻结");
    assert_eq!(FrameFun::parse_freeze_time(&[0x99, 0x99, 0x99, 0x30]), "每时30分");
    assert_eq!(FrameFun::parse_freeze_time(&[0x99, 0x99, 0x12, 0x30]), "每日12时30分");
    assert_eq!(FrameFun::parse_freeze_time(&[0x99, 0x01, 0x12, 0x30]), "每月01日12时30分");
    assert_eq!(FrameFun::parse_freeze_time(&[0x05, 0x01, 0x12, 0x30]), "未知冻结类型");
    assert_eq!(FrameFun::parse_freeze_time(&[0x99, 0x99, 0x99]), "未知冻结类型");
}

#[test]
fn ascii_stops_at_the_first_zero() {
    assert_eq!(FrameFun::ascii_to_str(b"abc\0def"), "abc");
    assert_eq!(FrameFun::ascii_to_str(b"abc"), "abc");
    assert_eq!(FrameFun::ascii_to_str(b"\0abc"), "");
    assert_eq!(FrameFun::ascii_to_str(&[0x41, 0xFF, 0x42]), "A\u{FFFD}B");
}

#[test]
fn measurement_points_of_a_selector() {
    assert_eq!(FrameFun::calculate_measurement_points(&[0xFF, 0xFF]), Ok((1, vec![0xFFFF])));
    assert_eq!(FrameFun::calculate_measurement_points(&[0x00, 0x00]), Ok((1, vec![0])));
    assert_eq!(FrameFun::calculate_measurement_points(&[0x01, 0x01]), Ok((1, vec![1])));
    assert_eq!(FrameFun::calculate_measurement_points(&[0x05, 0x02]), Ok((2, vec![9, 11])));
    assert_eq!(FrameFun::calculate_measurement_points(&[0xFF, 0x01]), Ok((8, vec![1, 2, 3, 4, 5, 6, 7, 8])));
    assert_eq!(FrameFun::calculate_measurement_points(&[0x80, 0xFF]), Ok((1, vec![2040])));
    assert_eq!(FrameFun::calculate_measurement_points(&[0x00, 0x03]), Ok((0, vec![])));
    assert_eq!(FrameFun::calculate_measurement_points(&[0x01, 0x00]), Err(DecodeError::OutOfRange));
    assert_eq!(FrameFun::calculate_measurement_points(&[0x01]), Err(DecodeError::TooShort));
}

#[test]
fn measurement_points_as_text() {
    assert_eq!(FrameFun::parse_da_data(&[0x00, 0x00]), "Pn=测量点：0(终端)");
    assert_eq!(FrameFun::parse_da_data(&[0xFF, 0xFF]), "Pn=测量点：FFFF(除了终端信息点以外的所有测量点)");
    assert_eq!(FrameFun::parse_da_data(&[0x05, 0x02]), "Pn=第9, 11测量点");
    assert_eq!(FrameFun::parse_da_data(&[0x01, 0x01]), "Pn=第1测量点");
    assert_eq!(FrameFun::parse_da_data(&[0x00, 0x01]), "Pn解析失败");
    assert_eq!(FrameFun::parse_da_data(&[0x01, 0x00]), "Pn解析失败");
    assert_eq!(FrameFun::parse_da_data(&[]), "Pn解析失败");
}

#[test]
fn time_follows_the_layout() {
    assert_eq!(
        FrameFun::parse_time_data(&[0x30, 0x12, 0x25, 0x06, 0x24], "mmhhDDMMYY", false),
        Ok("24年06月25日12时30分".to_string())
    );
    assert_eq!(
        FrameFun::parse_time_data(&[0x63, 0x45, 0x58, 0x39, 0x57], "mmhhDDMMYY", true),
        Ok("24年06月25日12时30分".to_string())
    );
    assert_eq!(
        FrameFun::parse_time_data(&[0x20, 0x24, 0x06, 0x25, 0x02, 0x12, 0x30, 0x59], "CCYYMMDDWWhhmmss", false),
        Ok("2024年06月25日二12时30分59秒".to_string())
    );
    assert_eq!(FrameFun::parse_time_data(&[0x09], "WW", false), Ok("未知".to_string()));
    assert_eq!(FrameFun::parse_time_data(&[0x00], "WW", false), Ok("天".to_string()));
    assert_eq!(FrameFun::parse_time_data(&[0x01, 0x02], "", false), Ok(String::new()));
    assert_eq!(FrameFun::parse_time_data(&[0x30], "mmhh", false), Err(DecodeError::TooShort));
}

#[test]
fn fcs16_of_known_vectors() {
    assert_eq!(FrameFun::ppp_fcs16(0xFFFF, &[]), 0xFFFF);
    assert_eq!(FrameFun::ppp_fcs16(0xFFFF, b"123456789") ^ 0xFFFF, 0x906E);
}

#[test]
fn decode_error_messages() {
    assert_eq!(DecodeError::Empty.message(), "empty input");
    assert_eq!(DecodeError::TooShort.message(), "input too short");
    assert_eq!(DecodeError::InvalidDigit.message(), "invalid digit");
    assert_eq!(DecodeError::OutOfRange.message(), "value out of range");
}

#[test]
fn bcd_decode_checks_for_invalid_on_request() {
    assert_eq!(FrameFun::bcd_decode(&[0x67, 0x45, 0x23, 0x01], 2, false, false, true), Ok("012345.67".to_string()));
    assert_eq!(FrameFun::bcd_decode(&[0x67, 0x45, 0x23, 0x01], 2, false, false, true).unwrap().len(), 2 * 4 + 1);
    assert_eq!(FrameFun::bcd_decode(&[0x67, 0x45, 0x23, 0x01], 0, false, false, true).unwrap().len(), 2 * 4);
    assert_eq!(FrameFun::bcd_decode(&[0xFF, 0xFF], 1, false, false, true), Ok("无效数据".to_string()));
    assert_eq!(FrameFun::bcd_decode(&[0xFF, 0xFF], 1, false, false, false), Err(DecodeError::InvalidDigit));
    assert_eq!(FrameFun::bcd_decode(&[0x32, 0x32], 1, true, false, false), Err(DecodeError::InvalidDigit));
    assert_eq!(FrameFun::bcd_decode(&[0x67, 0xC5], 1, true, true, false), Ok("-123.4".to_string()));
    assert_eq!(FrameFun::bcd_decode(&[], 0, false, false, false), Ok(String::new()));
}

#[test]
fn hex_text_and_bytes() {
    assert_eq!(hex_to_bytes("68 aa\r\n16"), Ok(vec![0x68, 0xAA, 0x16]));
    assert_eq!(hex_to_bytes("68a"), Err(DecodeError::TooShort));
    assert_eq!(hex_to_bytes("68\tAA"), Err(DecodeError::TooShort));
    assert_eq!(hex_to_bytes("6x"), Err(DecodeError::InvalidDigit));
    assert_eq!(bytes_to_hex(&[0x68, 0x0A]), "68 0A");
    assert_eq!(bytes_to_hex(&[]), "");
}
