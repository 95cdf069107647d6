use dns_codec::code::{codes_accepted, DecodeMode, ResourceClass, ResourceType};
use dns_codec::error::DnsError;

#[test]
fn recognized_types_have_their_codes() {
    let types = [
        (1u16, ResourceType::A),
        (2, ResourceType::NS),
        (3, ResourceType::MD),
        (4, ResourceType::MF),
        (5, ResourceType::CNAME),
        (6, ResourceType::SOA),
        (7, ResourceType::MB),
        (8, ResourceType::MG),
        (9, ResourceType::MR),
        (10, ResourceType::NULL),
        (11, ResourceType::WKS),
        (12, ResourceType::PTR),
        (13, ResourceType::HINFO),
        (14, ResourceType::MINFO),
        (15, ResourceType::MX),
        (16, ResourceType::TXT),
    ];
    for (code, rtype) in types {
        assert_eq!(ResourceType::try_from(code), Ok(rtype));
        assert_eq!(ResourceType::from_code(code), rtype);
        assert_eq!(rtype.code(), code);
        assert!(rtype.is_recognized());
    }
}

#[test]
fn recognized_classes_have_their_codes() {
    let classes = [
        (1u16, ResourceClass::IN),
        (2, ResourceClass::CS),
        (3, ResourceClass::CH),
        (4, ResourceClass::HS),
    ];
    for (code, rclass) in classes {
        assert_eq!(ResourceClass::try_from(code), Ok(rclass));
        assert_eq!(ResourceClass::from_code(code), rclass);
        assert_eq!(rclass.code(), code);
        assert!(rclass.is_recognized());
    }
}

#[test]
fn other_type_codes_are_unsupported() {
    assert_eq!(ResourceType::try_from(0u16), Err(DnsError::UnsupportedRecordType));
    assert_eq!(ResourceType::try_from(17u16), Err(DnsError::UnsupportedRecordType));
    assert_eq!(ResourceType::try_from(28u16), Err(DnsError::UnsupportedRecordType));
    assert_eq!(ResourceType::try_from(65535u16), Err(DnsError::UnsupportedRecordType));
}

#[test]
fn other_class_codes_are_unsupported() {
    assert_eq!(ResourceClass::try_from(0u16), Err(DnsError::UnsupportedRecordClass));
    assert_eq!(ResourceClass::try_from(5u16), Err(DnsError::UnsupportedRecordClass));
    assert_eq!(ResourceClass::try_from(255u16), Err(DnsError::UnsupportedRecordClass));
}

#[test]
fn lenient_reading_keeps_every_code() {
    for code in 0..=65535u16 {
        let rtype = ResourceType::from_code(code);
        assert_eq!(rtype.code(), code);
        assert_eq!(rtype.is_recognized(), (1..=16).contains(&code));
        let rclass = ResourceClass::from_code(code);
        assert_eq!(rclass.code(), code);
        assert_eq!(rclass.is_recognized(), (1..=4).contains(&code));
    }
    assert_eq!(ResourceType::from_code(28), ResourceType::Unknown(28));
    assert_eq!(ResourceClass::from_code(254), ResourceClass::Unknown(254));
}

#[test]
fn strict_mode_refuses_unknown_codes() {
    let unknown_type = ResourceType::Unknown(28);
    let unknown_class = ResourceClass::Unknown(254);
    assert_eq!(codes_accepted(DecodeMode::Lenient, unknown_type, unknown_class), Ok(()));
    assert_eq!(codes_accepted(DecodeMode::Strict, ResourceType::A, ResourceClass::IN), Ok(()));
    assert_eq!(
        codes_accepted(DecodeMode::Strict, unknown_type, ResourceClass::IN),
        Err(DnsError::UnsupportedRecordType)
    );
    assert_eq!(
        codes_accepted(DecodeMode::Strict, ResourceType::A, unknown_class),
        Err(DnsError::UnsupportedRecordClass)
    );
    assert_eq!(
        codes_accepted(DecodeMode::Strict, unknown_type, unknown_class),
        Err(DnsError::UnsupportedRecordType)
    );
}
