use nmea_codec::checksum::{compute, format_bytes, hex_digit_value, parse};
use nmea_codec::decimal::Decimal;
use nmea_codec::devices::NmeaBuff;
use nmea_codec::digits::{byte_is_digit, digits_to_nat, nat_to_text, text_to_nat};
use nmea_codec::errors::DecodeError;
use nmea_codec::messeges::tokens::split_at;
use nmea_codec::messeges::{NmeaFields, NmeaTime};
use nmea_codec::schema::FieldType;
use nmea_codec::text::{find_first, find_last};

#[test]
fn checksum_of_known_payloads() {
    assert_eq!(compute(b""), 0);
    assert_eq!(compute(b"A"), 0x41);
    assert_eq!(compute(b"AA"), 0);
    assert_eq!(compute(b"GPGGA,0,N,0,E,000000,0,0,0,0,M,0,M,0,0"), 0x6D);
    assert_eq!(compute(b"GPGLL,0,N,0,E,000000,A"), 0x1A);
    assert_eq!(compute(b"GPGSA,A,1,0,0,0,0,0,0,0,0,0,0,0,0,0,0,0"), 0x2E);
    assert_eq!(compute(&[0xff, 0x0f]), 0xf0);
}

#[test]
fn checksum_is_a_function_of_the_payload() {
    let payload = b"GPGLL,0,N,0,E,000000,A".to_vec();
    let copy = payload.clone();
    assert_eq!(compute(&payload), compute(&payload));
    assert_eq!(compute(&payload), compute(&copy));
}

#[test]
fn checksum_of_two_parts() {
    let a = b"GPGLL,0,N";
    let b = b",0,E,000000,A";
    let mut whole = a.to_vec();
    whole.extend_from_slice(b);
    assert_eq!(compute(&whole), compute(a) ^ compute(b));
    let mut swapped = b.to_vec();
    swapped.extend_from_slice(a);
    assert_eq!(compute(&whole), compute(&swapped));
    assert_eq!(compute(&[1, 2]), 3);
    assert_eq!(compute(&[2, 1]), 3);
}

#[test]
fn checksum_format() {
    assert_eq!(nmea_codec::checksum::format(0x06), "06");
    assert_eq!(nmea_codec::checksum::format(0x6D), "6D");
    assert_eq!(nmea_codec::checksum::format(0x00), "00");
    assert_eq!(nmea_codec::checksum::format(0xFF), "FF");
    assert_eq!(nmea_codec::checksum::format(0xA0), "A0");
    assert_eq!(nmea_codec::checksum::format(0x9F), "9F");
    assert_eq!(format_bytes(0x1A), b"1A".to_vec());
}

#[test]
fn checksum_parse() {
    assert_eq!(parse(b"06"), Some(0x06));
    assert_eq!(parse(b"6D"), Some(0x6D));
    assert_eq!(parse(b"6d"), Some(0x6D));
    assert_eq!(parse(b"ff"), Some(0xFF));
    assert_eq!(parse(b"Ff"), Some(0xFF));
    assert_eq!(parse(b"6"), None);
    assert_eq!(parse(b""), None);
    assert_eq!(parse(b"06D"), None);
    assert_eq!(parse(b"0G"), None);
    assert_eq!(parse(b"g0"), None);
    assert_eq!(parse(b" 6"), None);
    for x in 0..=255u8 {
        assert_eq!(parse(nmea_codec::checksum::format(x).as_bytes()), Some(x));
    }
}

#[test]
fn hex_digits() {
    assert_eq!(hex_digit_value(b'0'), Some(0));
    assert_eq!(hex_digit_value(b'9'), Some(9));
    assert_eq!(hex_digit_value(b'A'), Some(10));
    assert_eq!(hex_digit_value(b'F'), Some(15));
    assert_eq!(hex_digit_value(b'a'), Some(10));
    assert_eq!(hex_digit_value(b'f'), Some(15));
    assert_eq!(hex_digit_value(b'G'), None);
    assert_eq!(hex_digit_value(b'g'), None);
    assert_eq!(hex_digit_value(b'/'), None);
    assert_eq!(hex_digit_value(b':'), None);
    assert_eq!(hex_digit_value(b'@'), None);
    assert_eq!(hex_digit_value(b'`'), None);
}

#[test]
fn numbers_are_written_in_decimal() {
    assert_eq!(nat_to_text(0), b"0".to_vec());
    assert_eq!(nat_to_text(7), b"7".to_vec());
    assert_eq!(nat_to_text(10), b"10".to_vec());
    assert_eq!(nat_to_text(255), b"255".to_vec());
    assert_eq!(nat_to_text(65535), b"65535".to_vec());
    assert_eq!(nat_to_text(u128::MAX), b"340282366920938463463374607431768211455".to_vec());
}

#[test]
fn numbers_are_read_strictly() {
    assert_eq!(text_to_nat(b"0", 255), Some(0));
    assert_eq!(text_to_nat(b"255", 255), Some(255));
    assert_eq!(text_to_nat(b"256", 255), None);
    assert_eq!(text_to_nat(b"00", 255), None);
    assert_eq!(text_to_nat(b"007", 255), None);
    assert_eq!(text_to_nat(b"", 255), None);
    assert_eq!(text_to_nat(b"+7", 255), None);
    assert_eq!(text_to_nat(b"-7", 255), None);
    assert_eq!(text_to_nat(b"7 ", 255), None);
    assert_eq!(text_to_nat(b"1e2", 255), None);
    assert_eq!(text_to_nat(b"5", 4), None);
    assert_eq!(text_to_nat(b"4", 4), Some(4));
    assert_eq!(
        text_to_nat(b"340282366920938463463374607431768211455", u128::MAX),
        Some(u128::MAX)
    );
    assert_eq!(text_to_nat(b"340282366920938463463374607431768211456", u128::MAX), None);
    assert_eq!(text_to_nat(b"3402823669209384634633746074317682114550", u128::MAX), None);
    assert_eq!(digits_to_nat(b"007", 255), Some(7));
    assert_eq!(digits_to_nat(b"", 255), Some(0));
    assert_eq!(digits_to_nat(b"0256", 255), None);
    assert_eq!(digits_to_nat(b"2x", 255), None);
    assert!(byte_is_digit(b'0'));
    assert!(byte_is_digit(b'9'));
    assert!(!byte_is_digit(b'/'));
    assert!(!byte_is_digit(b':'));
}

#[test]
fn decimals_are_written() {
    let text = |negative, mantissa, scale| {
        String::from_utf8(Decimal { negative, mantissa, scale }.to_text()).unwrap()
    };
    assert_eq!(text(false, 0, 0), "0");
    assert_eq!(text(true, 0, 0), "-0");
    assert_eq!(text(false, 15, 1), "1.5");
    assert_eq!(text(false, 15, 0), "15");
    assert_eq!(text(false, 15, 2), "0.15");
    assert_eq!(text(false, 15, 3), "0.015");
    assert_eq!(text(true, 5, 1), "-0.5");
    assert_eq!(text(false, 0, 2), "0.00");
    assert_eq!(text(false, 1500, 2), "15.00");
    assert_eq!(text(false, 4807038, 3), "4807.038");
    assert_eq!(text(false, 1, 45), "0.000000000000000000000000000000000000000000001");
    assert_eq!(text(false, u128::MAX, 0), "340282366920938463463374607431768211455");
    assert_eq!(Decimal::zero(), Decimal { negative: false, mantissa: 0, scale: 0 });
}

#[test]
fn decimals_are_read() {
    let d = |negative, mantissa, scale| Some(Decimal { negative, mantissa, scale });
    assert_eq!(Decimal::from_text(b"0"), d(false, 0, 0));
    assert_eq!(Decimal::from_text(b"-0"), d(true, 0, 0));
    assert_eq!(Decimal::from_text(b"1.5"), d(false, 15, 1));
    assert_eq!(Decimal::from_text(b"0.15"), d(false, 15, 2));
    assert_eq!(Decimal::from_text(b"0.015"), d(false, 15, 3));
    assert_eq!(Decimal::from_text(b"-0.5"), d(true, 5, 1));
    assert_eq!(Decimal::from_text(b"0.00"), d(false, 0, 2));
    assert_eq!(Decimal::from_text(b"15.00"), d(false, 1500, 2));
    assert_eq!(Decimal::from_text(b"4807.038"), d(false, 4807038, 3));
    assert_eq!(Decimal::from_text(b""), None);
    assert_eq!(Decimal::from_text(b"-"), None);
    assert_eq!(Decimal::from_text(b"."), None);
    assert_eq!(Decimal::from_text(b".5"), None);
    assert_eq!(Decimal::from_text(b"5."), None);
    assert_eq!(Decimal::from_text(b"00.5"), None);
    assert_eq!(Decimal::from_text(b"01"), None);
    assert_eq!(Decimal::from_text(b"+1"), None);
    assert_eq!(Decimal::from_text(b"--1"), None);
    assert_eq!(Decimal::from_text(b"1.2.3"), None);
    assert_eq!(Decimal::from_text(b"1e5"), None);
    assert_eq!(Decimal::from_text(b"NaN"), None);
    assert_eq!(Decimal::from_text(b"inf"), None);
    assert_eq!(Decimal::from_text(b"1,5"), None);
    assert_eq!(Decimal::from_text(b"1.-5"), None);
    assert_eq!(Decimal::from_text(b"340282366920938463463374607431768211455"), d(false, u128::MAX, 0));
    assert_eq!(Decimal::from_text(b"34028236692093846346337460743176821145.5"), d(false, u128::MAX, 1));
    assert_eq!(Decimal::from_text(b"340282366920938463463374607431768211456"), None);
    assert_eq!(Decimal::from_text(b"34028236692093846346337460743176821145.6"), None);
    let mut long = b"0.".to_vec();
    long.extend(std::iter::repeat(b'0').take(255));
    assert_eq!(Decimal::from_text(&long), d(false, 0, 255));
    long.push(b'0');
    assert_eq!(Decimal::from_text(&long), None);
}

#[test]
fn decimal_round_trip() {
    for negative in [false, true] {
        for mantissa in [0u128, 1, 9, 10, 99, 100, 101, 12345, u64::MAX as u128, u128::MAX] {
            for scale in [0u8, 1, 2, 3, 5, 38, 39, 40, 255] {
                let d = Decimal { negative, mantissa, scale };
                assert_eq!(Decimal::from_text(&d.to_text()), Some(d));
            }
        }
    }
}

#[test]
fn times_are_written_and_read() {
    assert_eq!(NmeaTime::new(), NmeaTime { hour: 0, minute: 0, second: 0 });
    assert_eq!(NmeaTime::new().to_text(), b"000000".to_vec());
    assert_eq!(NmeaTime::from_hms(1, 2, 3).to_text(), b"010203".to_vec());
    assert_eq!(NmeaTime::from_hms(23, 59, 59).to_text(), b"235959".to_vec());
    assert_eq!(NmeaTime::from_hms(99, 99, 99).to_text(), b"999999".to_vec());
    assert_eq!(NmeaTime::from_hms(100, 0, 255).to_text(), b"10000255".to_vec());
    assert_eq!(NmeaTime::new().as_string(), Ok("000000".to_string()));
    assert_eq!(NmeaTime::from_text(b"000000"), Some(NmeaTime::new()));
    assert_eq!(NmeaTime::from_text(b"010203"), Some(NmeaTime::from_hms(1, 2, 3)));
    assert_eq!(NmeaTime::from_text(b"999999"), Some(NmeaTime::from_hms(99, 99, 99)));
    assert_eq!(NmeaTime::from_text(b"00000"), None);
    assert_eq!(NmeaTime::from_text(b"0000000"), None);
    assert_eq!(NmeaTime::from_text(b"00000x"), None);
    assert_eq!(NmeaTime::from_text(b"0x0000"), None);
    assert_eq!(NmeaTime::from_text(b"x00000"), None);
    assert_eq!(NmeaTime::from_text(b""), None);
    assert_eq!(NmeaTime::parse_payload(b"123519"), Ok(NmeaTime::from_hms(12, 35, 19)));
    assert_eq!(
        NmeaTime::parse_payload(b"12:35:19"),
        Err(DecodeError::FieldTypeMismatch { position: 0 })
    );
    assert!(NmeaTime::from_hms(99, 99, 99).is_valid());
    assert!(!NmeaTime::from_hms(100, 0, 0).is_valid());
    assert!(!NmeaTime::from_hms(0, 100, 0).is_valid());
    assert!(!NmeaTime::from_hms(0, 0, 100).is_valid());
}

#[test]
fn fields_are_written() {
    assert_eq!(NmeaFields::Float(Decimal { negative: false, mantissa: 15, scale: 1 }).unwrap(), "1.5");
    assert_eq!(NmeaFields::Char('N').unwrap(), "N");
    assert_eq!(NmeaFields::Char('\u{e9}').unwrap(), "\u{e9}");
    assert_eq!(NmeaFields::UInt8(0).unwrap(), "0");
    assert_eq!(NmeaFields::UInt8(255).unwrap(), "255");
    assert_eq!(NmeaFields::UInt16(256).unwrap(), "256");
    assert_eq!(NmeaFields::UInt16(65535).unwrap(), "65535");
    assert_eq!(NmeaFields::TimeOfDay(NmeaTime::from_hms(1, 2, 3)).unwrap(), "010203");
}

#[test]
fn fields_are_read_as_their_type() {
    assert_eq!(
        NmeaFields::from_text(FieldType::Float, b"7"),
        Some(NmeaFields::Float(Decimal { negative: false, mantissa: 7, scale: 0 }))
    );
    assert_eq!(NmeaFields::from_text(FieldType::Char, b"7"), Some(NmeaFields::Char('7')));
    assert_eq!(NmeaFields::from_text(FieldType::UInt8, b"7"), Some(NmeaFields::UInt8(7)));
    assert_eq!(NmeaFields::from_text(FieldType::UInt16, b"7"), Some(NmeaFields::UInt16(7)));
    assert_eq!(NmeaFields::from_text(FieldType::TimeOfDay, b"7"), None);
    assert_eq!(
        NmeaFields::from_text(FieldType::TimeOfDay, b"000007"),
        Some(NmeaFields::TimeOfDay(NmeaTime::from_hms(0, 0, 7)))
    );
    assert_eq!(NmeaFields::from_text(FieldType::UInt8, b"000007"), None);
    assert_eq!(NmeaFields::from_text(FieldType::UInt8, b"256"), None);
    assert_eq!(NmeaFields::from_text(FieldType::UInt16, b"256"), Some(NmeaFields::UInt16(256)));
    assert_eq!(NmeaFields::from_text(FieldType::UInt16, b"65536"), None);
    assert_eq!(NmeaFields::from_text(FieldType::Char, b""), None);
    assert_eq!(NmeaFields::from_text(FieldType::Char, b"AB"), None);
    assert_eq!(NmeaFields::from_text(FieldType::Char, b","), None);
    assert_eq!(NmeaFields::from_text(FieldType::Char, b"*"), None);
    assert_eq!(NmeaFields::from_text(FieldType::Char, b"$"), None);
    assert_eq!(NmeaFields::from_text(FieldType::Char, &[0x80]), None);
    assert_eq!(NmeaFields::from_text(FieldType::Char, &[0x7f]), Some(NmeaFields::Char('\u{7f}')));
    assert_eq!(NmeaFields::from_text(FieldType::Float, b"x"), None);
}

#[test]
fn field_types_and_validity() {
    let d = Decimal::zero();
    assert_eq!(NmeaFields::Float(d).field_type(), FieldType::Float);
    assert_eq!(NmeaFields::Char('x').field_type(), FieldType::Char);
    assert_eq!(NmeaFields::UInt8(1).field_type(), FieldType::UInt8);
    assert_eq!(NmeaFields::UInt16(1).field_type(), FieldType::UInt16);
    assert_eq!(NmeaFields::TimeOfDay(NmeaTime::new()).field_type(), FieldType::TimeOfDay);
    assert!(NmeaFields::Float(d).is_valid());
    assert!(NmeaFields::Char('x').is_valid());
    assert!(!NmeaFields::Char(',').is_valid());
    assert!(!NmeaFields::Char('*').is_valid());
    assert!(!NmeaFields::Char('$').is_valid());
    assert!(!NmeaFields::Char('\u{80}').is_valid());
    assert!(!NmeaFields::Char('\u{e9}').is_valid());
    assert!(NmeaFields::Char('\u{7f}').is_valid());
    assert!(NmeaFields::UInt8(255).is_valid());
    assert!(NmeaFields::UInt16(65535).is_valid());
    assert!(NmeaFields::TimeOfDay(NmeaTime::from_hms(99, 99, 99)).is_valid());
    assert!(!NmeaFields::TimeOfDay(NmeaTime::from_hms(100, 0, 0)).is_valid());
}

#[test]
fn valid_fields_round_trip() {
    let fields = [
        NmeaFields::Float(Decimal { negative: true, mantissa: 123, scale: 5 }),
        NmeaFields::Char('W'),
        NmeaFields::UInt8(200),
        NmeaFields::UInt16(2000),
        NmeaFields::TimeOfDay(NmeaTime::from_hms(9, 8, 7)),
    ];
    for f in fields {
        assert!(f.is_valid());
        assert_eq!(NmeaFields::from_text(f.field_type(), f.unwrap().as_bytes()), Some(f));
    }
}

#[test]
fn texts_are_cut_at_commas() {
    let parts = |text: &'static [u8]| -> Vec<Vec<u8>> {
        split_at(text, b',').into_iter().map(|t| t.to_vec()).collect()
    };
    assert_eq!(parts(b""), vec![b"".to_vec()]);
    assert_eq!(parts(b"a"), vec![b"a".to_vec()]);
    assert_eq!(parts(b","), vec![b"".to_vec(), b"".to_vec()]);
    assert_eq!(parts(b"a,b"), vec![b"a".to_vec(), b"b".to_vec()]);
    assert_eq!(parts(b",a,,b,"), vec![b"".to_vec(), b"a".to_vec(), b"".to_vec(), b"b".to_vec(), b"".to_vec()]);
}

#[test]
fn bytes_are_found() {
    assert_eq!(find_first(b"a.b.c", b'.'), 1);
    assert_eq!(find_first(b"abc", b'.'), 3);
    assert_eq!(find_first(b"", b'.'), 0);
    assert_eq!(find_first(b".", b'.'), 0);
    assert_eq!(find_last(b"a*b*c", b'*'), Some(3));
    assert_eq!(find_last(b"abc", b'*'), None);
    assert_eq!(find_last(b"", b'*'), None);
    assert_eq!(find_last(b"*", b'*'), Some(0));
}

#[test]
fn floats_pass_through_decimals() {
    let values: [f32; 12] = [
        0.0,
        -0.0,
        1.0,
        1.5,
        -46.9,
        4807.038,
        0.005,
        545.4,
        1e20,
        1e-7,
        f32::MAX,
        f32::MIN_POSITIVE,
    ];
    for value in values {
        let printed = format!("{}", value);
        let decimal = Decimal::from_text(printed.as_bytes()).unwrap();
        let text = String::from_utf8(decimal.to_text()).unwrap();
        assert_eq!(text, printed);
        let back: f32 = text.parse().unwrap();
        assert_eq!(back.to_bits(), value.to_bits());
    }
    assert_eq!(Decimal::from_text(format!("{}", f32::NAN).as_bytes()), None);
    assert_eq!(Decimal::from_text(format!("{}", f32::INFINITY).as_bytes()), None);
    assert_eq!(Decimal::from_text(format!("{}", f32::NEG_INFINITY).as_bytes()), None);
    assert_eq!(
        Decimal::from_text(format!("{}", 0.0f32).as_bytes()),
        Some(Decimal { negative: false, mantissa: 0, scale: 0 })
    );
    assert_eq!(
        Decimal::from_text(format!("{}", 1.5f32).as_bytes()),
        Some(Decimal { negative: false, mantissa: 15, scale: 1 })
    );
}
