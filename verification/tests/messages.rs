use nmea_codec::decimal::Decimal;
use nmea_codec::devices::{DeviceId, DeviceMessage, NmeaBuff};
use nmea_codec::errors::{DecodeError, EncodeError};
use nmea_codec::messeges::{NmeaFields, NmeaMessages, NmeaTime};
use nmea_codec::schema::{elements_count, schema_for, FieldType, SentenceKind};

#[test]
fn device_message() {
    let gga = NmeaMessages::new_gga();
    let nmea_gga = DeviceMessage::new(DeviceId::GPS, gga);
    let gll: NmeaMessages = NmeaMessages::new_gll();
    let nmea_gll = DeviceMessage::new(DeviceId::GPS, gll);
    let gsa = NmeaMessages::new_gsa();
    let nmea_gsa = DeviceMessage::new(DeviceId::GPS, gsa);
    let gsv = NmeaMessages::new_gsv();
    let nmea_gsv = DeviceMessage::new(DeviceId::GPS, gsv);

    assert_eq!(nmea_gga.create_message().unwrap(), "$GPGGA,0,N,0,E,000000,0,0,0,0,M,0,M,0,0*6D\r\n".to_string());
    assert_eq!(nmea_gll.create_message().unwrap(), "$GPGLL,0,N,0,E,000000,A*1A\r\n".to_string());
    assert_eq!(nmea_gsa.create_message().unwrap(), "$GPGSA,A,1,0,0,0,0,0,0,0,0,0,0,0,0,0,0,0*2E\r\n".to_string());
    assert_eq!(nmea_gsv.create_message().unwrap(), "$GPGSV,0,0,0,0,0,0,0,0,0,0,0,0,0,0,0,0,0,0,0*49\r\n".to_string());
}

#[test]
fn test_to_string() {
    let gga = NmeaMessages::new_gga();
    let gll = NmeaMessages::new_gll();
    let gsa = NmeaMessages::new_gsa();
    let gsv = NmeaMessages::new_gsv();

    assert_eq!(gga.convert_to_string().unwrap(), "GGA,0,N,0,E,000000,0,0,0,0,M,0,M,0,0".to_string());
    assert_eq!(gll.convert_to_string().unwrap(), "GLL,0,N,0,E,000000,A".to_string());
    assert_eq!(gsa.convert_to_string().unwrap(), "GSA,A,1,0,0,0,0,0,0,0,0,0,0,0,0,0,0,0".to_string());
    assert_eq!(gsv.convert_to_string().unwrap(), "GSV,0,0,0,0,0,0,0,0,0,0,0,0,0,0,0,0,0,0,0".to_string());
}

#[test]
fn test_element_count() {
    let gga = NmeaMessages::new_gga();
    let gll = NmeaMessages::new_gll();
    let gsa = NmeaMessages::new_gsa();
    let gsv = NmeaMessages::new_gsv();

    assert_eq!(gga.elements_count(), 14);
    assert_eq!(gga.get_pyload().len(), 14);
    assert_eq!(gll.elements_count(), 6);
    assert_eq!(gll.get_pyload().len(), 6);
    assert_eq!(gsa.elements_count(), 17);
    assert_eq!(gsa.get_pyload().len(), 17);
    assert_eq!(gsv.elements_count(), 19);
    assert_eq!(gsv.get_pyload().len(), 19);
}

#[test]
fn test_message_identifier() {
    let gga = NmeaMessages::new_gga();
    let gll = NmeaMessages::new_gll();
    let gsa = NmeaMessages::new_gsa();
    let gsv = NmeaMessages::new_gsv();

    assert_eq!(gga.message_identifier(), "GGA".to_string());
    assert_eq!(gll.message_identifier(), "GLL".to_string());
    assert_eq!(gsa.message_identifier(), "GSA".to_string());
    assert_eq!(gsv.message_identifier(), "GSV".to_string());
}

#[test]
fn id_string_of_each_device() {
    assert_eq!(DeviceId::GPS.id_string(), Ok("GP".to_string()));
    assert_eq!(DeviceId::EchoSounder.id_string(), Ok("ES".to_string()));
    assert_eq!(DeviceId::Radar.id_string(), Ok("RD".to_string()));
    assert_eq!(DeviceId::Unknown.id_string(), Err(EncodeError::UnknownTalker));
}

#[test]
fn device_of_each_code() {
    assert_eq!(DeviceId::from_code(b"GP"), Some(DeviceId::GPS));
    assert_eq!(DeviceId::from_code(b"ES"), Some(DeviceId::EchoSounder));
    assert_eq!(DeviceId::from_code(b"RD"), Some(DeviceId::Radar));
    assert_eq!(DeviceId::from_code(b"GX"), None);
    assert_eq!(DeviceId::from_code(b"G"), None);
    assert_eq!(DeviceId::from_code(b"GPS"), None);
    assert_eq!(DeviceId::from_code(b"gp"), None);
}

#[test]
fn empty_message_has_no_talker() {
    let message = DeviceMessage::empty(NmeaMessages::new_gll());
    assert_eq!(message.device_id, DeviceId::Unknown);
    assert_eq!(message.message_body, NmeaMessages::new_gll());
    assert_eq!(message.create_message(), Err(EncodeError::UnknownTalker));
}

#[test]
fn new_message_keeps_its_parts() {
    let message = DeviceMessage::new(DeviceId::Radar, NmeaMessages::new_gsv());
    assert_eq!(message.device_id, DeviceId::Radar);
    assert_eq!(message.message_body, NmeaMessages::new_gsv());
}

#[test]
fn message_of_other_talkers() {
    let radar = DeviceMessage::new(DeviceId::Radar, NmeaMessages::new_gll());
    assert_eq!(radar.create_message().unwrap(), "$RDGLL,0,N,0,E,000000,A*1B\r\n");
    let sounder = DeviceMessage::new(DeviceId::EchoSounder, NmeaMessages::new_gll());
    assert_eq!(sounder.create_message().unwrap(), "$ESGLL,0,N,0,E,000000,A*1B\r\n");
}

#[test]
fn checksum_of_payload() {
    assert_eq!(DeviceMessage::<NmeaMessages>::checksum("GPGLL,0,N,0,E,000000,A"), 0x1A);
    assert_eq!(DeviceMessage::<NmeaMessages>::checksum(""), 0);
    assert_eq!(DeviceMessage::<NmeaMessages>::checksum("A"), 0x41);
}

#[test]
fn schema_of_each_kind() {
    let f = FieldType::Float;
    let c = FieldType::Char;
    let t = FieldType::TimeOfDay;
    let b = FieldType::UInt8;
    let w = FieldType::UInt16;
    assert_eq!(schema_for(SentenceKind::GGA), vec![f, c, f, c, t, b, b, f, f, c, f, c, f, w]);
    assert_eq!(schema_for(SentenceKind::GLL), vec![f, c, f, c, t, c]);
    assert_eq!(
        schema_for(SentenceKind::GSA),
        vec![c, b, b, b, b, b, b, b, b, b, b, b, b, b, f, f, f]
    );
    assert_eq!(
        schema_for(SentenceKind::GSV),
        vec![b, b, b, b, b, w, b, b, b, w, b, b, b, w, b, b, b, w, b]
    );
}

#[test]
fn schema_lookup_is_repeatable() {
    for kind in [SentenceKind::GGA, SentenceKind::GLL, SentenceKind::GSA, SentenceKind::GSV] {
        assert_eq!(schema_for(kind), schema_for(kind));
        assert_eq!(schema_for(kind).len(), elements_count(kind) as usize);
    }
}

#[test]
fn elements_count_of_each_kind() {
    assert_eq!(elements_count(SentenceKind::GGA), 14);
    assert_eq!(elements_count(SentenceKind::GLL), 6);
    assert_eq!(elements_count(SentenceKind::GSA), 17);
    assert_eq!(elements_count(SentenceKind::GSV), 19);
}

#[test]
fn kind_names() {
    assert_eq!(SentenceKind::GGA.name(), "GGA");
    assert_eq!(SentenceKind::GLL.name(), "GLL");
    assert_eq!(SentenceKind::GSA.name(), "GSA");
    assert_eq!(SentenceKind::GSV.name(), "GSV");
    assert_eq!(SentenceKind::from_name(b"GGA"), Some(SentenceKind::GGA));
    assert_eq!(SentenceKind::from_name(b"GLL"), Some(SentenceKind::GLL));
    assert_eq!(SentenceKind::from_name(b"GSA"), Some(SentenceKind::GSA));
    assert_eq!(SentenceKind::from_name(b"GSV"), Some(SentenceKind::GSV));
    assert_eq!(SentenceKind::from_name(b"GSX"), None);
    assert_eq!(SentenceKind::from_name(b"GG"), None);
    assert_eq!(SentenceKind::from_name(b"GGAA"), None);
    assert_eq!(SentenceKind::from_name(b"gga"), None);
    assert_eq!(SentenceKind::from_name(b""), None);
}

#[test]
fn default_messages_are_valid() {
    assert!(NmeaMessages::new_gga().is_valid());
    assert!(NmeaMessages::new_gll().is_valid());
    assert!(NmeaMessages::new_gsa().is_valid());
    assert!(NmeaMessages::new_gsv().is_valid());
}

#[test]
fn message_kind_and_fields() {
    let fields = vec![NmeaFields::UInt8(1)];
    let m = NmeaMessages::from_fields(SentenceKind::GSA, fields.clone());
    assert_eq!(m.kind(), SentenceKind::GSA);
    assert_eq!(m.get_pyload(), &fields);
    assert_eq!(m, NmeaMessages::GSA(fields));
    assert_eq!(NmeaMessages::new_gga().kind(), SentenceKind::GGA);
    assert_eq!(NmeaMessages::new_gll().kind(), SentenceKind::GLL);
    assert_eq!(NmeaMessages::new_gsv().kind(), SentenceKind::GSV);
}

#[test]
fn invalid_messages_are_told() {
    let short = NmeaMessages::from_fields(SentenceKind::GLL, vec![]);
    assert!(!short.is_valid());
    let mut fields = NmeaMessages::new_gll().get_pyload().clone();
    fields[1] = NmeaFields::Char(',');
    assert!(!NmeaMessages::from_fields(SentenceKind::GLL, fields.clone()).is_valid());
    fields[1] = NmeaFields::UInt8(0);
    assert!(!NmeaMessages::from_fields(SentenceKind::GLL, fields.clone()).is_valid());
    fields[1] = NmeaFields::Char('S');
    assert!(NmeaMessages::from_fields(SentenceKind::GLL, fields).is_valid());
}

#[test]
fn convert_rejects_wrong_arity() {
    let mut fields = NmeaMessages::new_gga().get_pyload().clone();
    fields.pop();
    let m = NmeaMessages::from_fields(SentenceKind::GGA, fields);
    assert_eq!(
        m.convert_to_string(),
        Err(EncodeError::ArityMismatch { expected: 14, actual: 13 })
    );
    assert_eq!(m.as_string(), Err(EncodeError::ArityMismatch { expected: 14, actual: 13 }));
}

#[test]
fn convert_rejects_wrong_type() {
    let mut fields = NmeaMessages::new_gll().get_pyload().clone();
    fields[4] = NmeaFields::UInt16(7);
    fields[5] = NmeaFields::UInt8(7);
    let m = NmeaMessages::from_fields(SentenceKind::GLL, fields);
    assert_eq!(
        m.convert_to_string(),
        Err(EncodeError::FieldTypeMismatch {
            position: 4,
            expected: FieldType::TimeOfDay,
            actual: FieldType::UInt16
        })
    );
}

#[test]
fn body_round_trip() {
    let fields = vec![
        NmeaFields::Float(Decimal { negative: false, mantissa: 4807038, scale: 3 }),
        NmeaFields::Char('N'),
        NmeaFields::Float(Decimal { negative: true, mantissa: 1131, scale: 2 }),
        NmeaFields::Char('W'),
        NmeaFields::TimeOfDay(NmeaTime::from_hms(12, 35, 19)),
        NmeaFields::Char('A'),
    ];
    let m = NmeaMessages::from_fields(SentenceKind::GLL, fields);
    let text = m.as_string().unwrap();
    assert_eq!(text, "GLL,4807.038,N,-11.31,W,123519,A");
    assert_eq!(NmeaMessages::parse_payload(text.as_bytes()), Ok(m));
}

#[test]
fn body_errors() {
    assert_eq!(NmeaMessages::from_text(b""), Err(DecodeError::UnknownSentenceKind));
    assert_eq!(NmeaMessages::from_text(b"GXX,1"), Err(DecodeError::UnknownSentenceKind));
    assert_eq!(
        NmeaMessages::from_text(b"GLL"),
        Err(DecodeError::ArityMismatch { expected: 6, actual: 0 })
    );
    assert_eq!(
        NmeaMessages::from_text(b"GLL,0,N,0,E,000000,A,"),
        Err(DecodeError::ArityMismatch { expected: 6, actual: 7 })
    );
    assert_eq!(
        NmeaMessages::from_text(b"GLL,0,N,0,E,000000,"),
        Err(DecodeError::FieldTypeMismatch { position: 5 })
    );
    assert_eq!(
        NmeaMessages::from_text(b"GLL,x,NN,0,E,000000,A"),
        Err(DecodeError::FieldTypeMismatch { position: 0 })
    );
}
