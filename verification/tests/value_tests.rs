#![allow(non_snake_case)]

use memory_scanner::config::FilterOption;
use memory_scanner::numeric::{decode_at, encode_le};
use memory_scanner::target::{encode_target, parse_target};

#[test]
fn ParseUnsignedBounds() {
    assert_eq!(Some(255), parse_target(&FilterOption::U8, b"255"));
    assert_eq!(None, parse_target(&FilterOption::U8, b"256"));
    assert_eq!(Some(65535), parse_target(&FilterOption::U16, b"65535"));
    assert_eq!(None, parse_target(&FilterOption::U16, b"65536"));
    assert_eq!(Some(4294967295), parse_target(&FilterOption::U32, b"4294967295"));
    assert_eq!(None, parse_target(&FilterOption::U32, b"4294967296"));
    assert_eq!(Some(u64::MAX), parse_target(&FilterOption::U64, b"18446744073709551615"));
    assert_eq!(None, parse_target(&FilterOption::U64, b"18446744073709551616"));
}

#[test]
fn ParseUnsignedForms() {
    assert_eq!(Some(15), parse_target(&FilterOption::U32, b"15"));
    assert_eq!(Some(15), parse_target(&FilterOption::U32, b"+15"));
    assert_eq!(Some(15), parse_target(&FilterOption::U32, b"0015"));
    assert_eq!(None, parse_target(&FilterOption::U32, b""));
    assert_eq!(None, parse_target(&FilterOption::U32, b"+"));
    assert_eq!(None, parse_target(&FilterOption::U32, b"1a"));
    assert_eq!(None, parse_target(&FilterOption::U32, b"-1"));
    assert_eq!(None, parse_target(&FilterOption::U32, b"1 "));
}

#[test]
fn ParseSignedTwosComplement() {
    assert_eq!(Some(0xFFFF_FFFF), parse_target(&FilterOption::I32, b"-1"));
    assert_eq!(Some(0x8000_0000), parse_target(&FilterOption::I32, b"-2147483648"));
    assert_eq!(Some(2147483647), parse_target(&FilterOption::I32, b"2147483647"));
    assert_eq!(None, parse_target(&FilterOption::I32, b"2147483648"));
    assert_eq!(None, parse_target(&FilterOption::I32, b"-2147483649"));
    assert_eq!(Some(0), parse_target(&FilterOption::I32, b"-0"));
    assert_eq!(
        Some(0x8000_0000_0000_0000),
        parse_target(&FilterOption::I64, b"-9223372036854775808")
    );
    assert_eq!(Some(u64::MAX), parse_target(&FilterOption::I64, b"-1"));
    assert_eq!(
        Some(9223372036854775807),
        parse_target(&FilterOption::I64, b"9223372036854775807")
    );
    assert_eq!(None, parse_target(&FilterOption::I64, b"9223372036854775808"));
}

#[test]
fn FloatTargetsParseElsewhere() {
    assert_eq!(None, parse_target(&FilterOption::F32, b"15"));
    assert_eq!(None, parse_target(&FilterOption::F64, b"15"));
}

#[test]
fn EncodeLittleEndian() {
    assert_eq!(Some(vec![15, 0, 0, 0]), encode_target(&FilterOption::U32, b"15"));
    assert_eq!(Some(vec![0xFE, 0xFF, 0xFF, 0xFF]), encode_target(&FilterOption::I32, b"-2"));
    assert_eq!(Some(vec![0x01, 0x02]), encode_target(&FilterOption::U16, b"513"));
    assert_eq!(None, encode_target(&FilterOption::U8, b"300"));
}

#[test]
fn DecodeEncodeRoundTrip() {
    let bytes = encode_le(0x0807060504030201, 8);
    assert_eq!(vec![1, 2, 3, 4, 5, 6, 7, 8], bytes);
    assert_eq!(0x0807060504030201, decode_at(&bytes, 0, 8));
    assert_eq!(0x0201, decode_at(&bytes, 0, 2));
    assert_eq!(0x0302, decode_at(&bytes, 1, 2));
}
