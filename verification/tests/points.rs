use frame_codec::frame_fun::FrameFun;
use frame_codec::measure_points::{ExchangeError, FrameCsg, PointError, SelectorError};

#[test]
fn single_selectors_name_one_point_each() {
    assert_eq!(FrameCsg::selector(0), Some((0x00, 0x00)));
    assert_eq!(FrameCsg::selector(0xFFFF), Some((0xFF, 0xFF)));
    assert_eq!(FrameCsg::selector(1), Some((0x01, 0x01)));
    assert_eq!(FrameCsg::selector(8), Some((0x80, 0x01)));
    assert_eq!(FrameCsg::selector(9), Some((0x01, 0x02)));
    assert_eq!(FrameCsg::selector(2040), Some((0x80, 0xFF)));
    assert_eq!(FrameCsg::selector(2041), None);
    assert_eq!(FrameCsg::to_da_with_single(&[1, 2, 9]), Some(vec![(0x01, 0x01), (0x02, 0x01), (0x01, 0x02)]));
    assert_eq!(FrameCsg::to_da_with_single(&[1, 3000]), None);
    assert_eq!(FrameCsg::to_da_with_single(&[]), Some(vec![]));
}

#[test]
fn a_selector_names_its_point() {
    for p in 1..=2040u16 {
        let (da1, da2) = FrameCsg::selector(p).unwrap();
        assert_eq!(FrameFun::calculate_measurement_points(&[da1, da2]), Ok((1, vec![p])));
    }
}

#[test]
fn continuous_selectors_share_a_group() {
    assert_eq!(FrameCsg::to_da_with_continuous(&[1, 2, 3, 9, 10, 17]), Some(vec![(0x07, 0x01), (0x03, 0x02), (0x01, 0x03)]));
    assert_eq!(FrameCsg::to_da_with_continuous(&[0, 1, 8]), Some(vec![(0x00, 0x00), (0x81, 0x01)]));
    assert_eq!(FrameCsg::to_da_with_continuous(&[1, 9, 2]), Some(vec![(0x01, 0x01), (0x01, 0x02), (0x02, 0x01)]));
    assert_eq!(FrameCsg::to_da_with_continuous(&[2040, 0xFFFF]), Some(vec![(0x80, 0xFF), (0xFF, 0xFF)]));
    assert_eq!(FrameCsg::to_da_with_continuous(&[5, 2041]), None);
}

#[test]
fn points_become_selectors() {
    assert_eq!(FrameCsg::try_convert_point_to_da("1-3,9", true), Ok("0701,0102".to_string()));
    assert_eq!(FrameCsg::try_convert_point_to_da("1-3,9", false), Ok("0101,0201,0401,0102".to_string()));
    assert_eq!(FrameCsg::try_convert_point_to_da("9,1,1,3-3,2", true), Ok("0701,0102".to_string()));
    assert_eq!(FrameCsg::try_convert_point_to_da("0", true), Ok("0000".to_string()));
    assert_eq!(FrameCsg::try_convert_point_to_da(",5,", false), Ok("1001".to_string()));
    assert_eq!(FrameCsg::try_convert_point_to_da("65535", false), Ok("FFFF".to_string()));
}

#[test]
fn bad_point_lists_are_refused() {
    assert_eq!(FrameCsg::try_convert_point_to_da("", true), Err(PointError::NoPoints));
    assert_eq!(FrameCsg::try_convert_point_to_da(",,", true), Err(PointError::NoPoints));
    assert_eq!(FrameCsg::try_convert_point_to_da("1-2-3", true), Err(PointError::BadRange));
    assert_eq!(FrameCsg::try_convert_point_to_da("a-3", true), Err(PointError::BadStart));
    assert_eq!(FrameCsg::try_convert_point_to_da("-3", true), Err(PointError::BadStart));
    assert_eq!(FrameCsg::try_convert_point_to_da("1-", true), Err(PointError::BadEnd));
    assert_eq!(FrameCsg::try_convert_point_to_da("1-65536", true), Err(PointError::BadEnd));
    assert_eq!(FrameCsg::try_convert_point_to_da("5-3", true), Err(PointError::Descending));
    assert_eq!(FrameCsg::try_convert_point_to_da("x", true), Err(PointError::BadNumber));
    assert_eq!(FrameCsg::try_convert_point_to_da(" 5", true), Err(PointError::BadNumber));
    assert_eq!(FrameCsg::try_convert_point_to_da("2041", true), Err(PointError::OutOfRange));
    assert_eq!(FrameCsg::try_convert_point_to_da("1,x", true), Err(PointError::BadNumber));
}

#[test]
fn selectors_become_points() {
    assert_eq!(FrameCsg::try_convert_da_to_point("0701,0102"), Ok("1,2,3,9".to_string()));
    assert_eq!(FrameCsg::try_convert_da_to_point("07010102"), Ok("1,2,3,9".to_string()));
    assert_eq!(FrameCsg::try_convert_da_to_point(" 0x0701 , 0x0x01 02 "), Ok("1,2,3,9".to_string()));
    assert_eq!(FrameCsg::try_convert_da_to_point("FFFF"), Ok("0xFFFF".to_string()));
    assert_eq!(FrameCsg::try_convert_da_to_point("0000"), Ok("0".to_string()));
    assert_eq!(FrameCsg::try_convert_da_to_point("0001,0101"), Ok(",1".to_string()));
    assert_eq!(FrameCsg::try_convert_da_to_point(",0101"), Ok("1".to_string()));
}

#[test]
fn bad_selector_lists_are_refused() {
    assert_eq!(FrameCsg::try_convert_da_to_point(""), Err(SelectorError::NoInput));
    assert_eq!(FrameCsg::try_convert_da_to_point("  "), Err(SelectorError::NoInput));
    assert_eq!(FrameCsg::try_convert_da_to_point(","), Err(SelectorError::Empty));
    assert_eq!(FrameCsg::try_convert_da_to_point("07g1"), Err(SelectorError::NotHex));
    assert_eq!(FrameCsg::try_convert_da_to_point("070"), Err(SelectorError::OddLength));
    assert_eq!(FrameCsg::try_convert_da_to_point("07"), Err(SelectorError::OddLength));
    assert_eq!(FrameCsg::try_convert_da_to_point("0100"), Err(SelectorError::BadSelector));
    assert_eq!(FrameCsg::try_convert_da_to_point("0101,0100"), Err(SelectorError::BadSelector));
}

#[test]
fn exchange_goes_both_ways() {
    assert_eq!(FrameCsg::da_and_measure_point_exchange(" 1-3 ", "point_to_da", true), Ok("0701".to_string()));
    assert_eq!(FrameCsg::da_and_measure_point_exchange(" 0701\n", "da_to_point", false), Ok("1,2,3".to_string()));
    assert_eq!(FrameCsg::da_and_measure_point_exchange("1", "other", false), Err(ExchangeError::BadKind));
    assert_eq!(FrameCsg::da_and_measure_point_exchange("x", "point_to_da", false), Err(ExchangeError::Points(PointError::BadNumber)));
    assert_eq!(FrameCsg::da_and_measure_point_exchange("", "da_to_point", false), Err(ExchangeError::Selectors(SelectorError::NoInput)));
}
