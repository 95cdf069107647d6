use dns_codec::answer::Answer;
use dns_codec::code::{DecodeMode, ResourceClass, ResourceType};
use dns_codec::error::DnsError;
use dns_codec::name::Name;
use dns_codec::question::Question;

fn address_record() -> Answer {
    Answer {
        name: Name::new("example.com"),
        rtype: ResourceType::A,
        rclass: ResourceClass::IN,
        ttl: 0x0001_0203,
        rdata: vec![93, 184, 216, 34],
    }
}

const EXAMPLE_COM: [u8; 13] =
    [7, b'e', b'x', b'a', b'm', b'p', b'l', b'e', 3, b'c', b'o', b'm', 0];

#[test]
fn question_encodes_name_type_and_class() {
    let question = Question {
        name: Name::new("example.com"),
        qtype: ResourceType::MX,
        qclass: ResourceClass::CH,
    };
    let mut expected = EXAMPLE_COM.to_vec();
    expected.extend_from_slice(&[0, 15, 0, 3]);
    assert_eq!(question.to_bytes(), Ok(expected));
}

#[test]
fn question_decodes_what_it_encodes() {
    let question = Question {
        name: Name::new("www.example.com"),
        qtype: ResourceType::TXT,
        qclass: ResourceClass::IN,
    };
    let bytes = question.to_bytes().unwrap();
    for mode in [DecodeMode::Lenient, DecodeMode::Strict] {
        let (decoded, end) = Question::parse(&bytes, 0, mode).unwrap();
        assert_eq!(decoded, question);
        assert_eq!(end, bytes.len());
    }
}

#[test]
fn question_with_a_long_label_is_refused() {
    let question = Question {
        name: Name { labels: vec![vec![b'a'; 64]] },
        qtype: ResourceType::A,
        qclass: ResourceClass::IN,
    };
    assert_eq!(question.to_bytes(), Err(DnsError::LabelTooLong));
}

#[test]
fn question_without_its_fields_is_truncated() {
    let mut bytes = EXAMPLE_COM.to_vec();
    for extra in 0..4 {
        assert_eq!(
            Question::parse(&bytes, 0, DecodeMode::Lenient),
            Err(DnsError::TruncatedInput)
        );
        assert_eq!(bytes.len(), 13 + extra);
        bytes.push(1);
    }
    assert!(Question::parse(&bytes, 0, DecodeMode::Lenient).is_ok());
}

#[test]
fn question_passes_on_the_error_of_its_name() {
    assert_eq!(
        Question::parse(&[0xC0, 0, 0, 1, 0, 1], 0, DecodeMode::Lenient),
        Err(DnsError::CompressionLoop)
    );
    assert_eq!(
        Question::parse(&[0xC0, 9, 0, 1, 0, 1], 0, DecodeMode::Strict),
        Err(DnsError::InvalidPointer)
    );
}

#[test]
fn unknown_question_codes_are_kept_or_refused() {
    let mut bytes = EXAMPLE_COM.to_vec();
    bytes.extend_from_slice(&[0, 28, 0, 1]);
    let (question, end) = Question::parse(&bytes, 0, DecodeMode::Lenient).unwrap();
    assert_eq!(question.qtype, ResourceType::Unknown(28));
    assert_eq!(question.qclass, ResourceClass::IN);
    assert_eq!(end, 17);
    assert_eq!(question.to_bytes(), Ok(bytes.clone()));
    assert_eq!(
        Question::parse(&bytes, 0, DecodeMode::Strict),
        Err(DnsError::UnsupportedRecordType)
    );

    let mut bytes = EXAMPLE_COM.to_vec();
    bytes.extend_from_slice(&[0, 1, 0, 255]);
    let (question, _) = Question::parse(&bytes, 0, DecodeMode::Lenient).unwrap();
    assert_eq!(question.qclass, ResourceClass::Unknown(255));
    assert_eq!(
        Question::parse(&bytes, 0, DecodeMode::Strict),
        Err(DnsError::UnsupportedRecordClass)
    );

    let mut bytes = EXAMPLE_COM.to_vec();
    bytes.extend_from_slice(&[0, 0, 0, 0]);
    assert_eq!(
        Question::parse(&bytes, 0, DecodeMode::Strict),
        Err(DnsError::UnsupportedRecordType)
    );
}

#[test]
fn record_encodes_all_its_fields() {
    let mut expected = EXAMPLE_COM.to_vec();
    expected.extend_from_slice(&[0, 1, 0, 1, 0x00, 0x01, 0x02, 0x03, 0, 4, 93, 184, 216, 34]);
    assert_eq!(address_record().to_bytes(), Ok(expected));
}

#[test]
fn record_decodes_what_it_encodes() {
    let record = address_record();
    let mut buffer = vec![0xEE; 3];
    buffer.extend_from_slice(&record.to_bytes().unwrap());
    buffer.extend_from_slice(&[0xEE; 2]);
    for mode in [DecodeMode::Lenient, DecodeMode::Strict] {
        let (decoded, end) = Answer::parse(&buffer, 3, mode).unwrap();
        assert_eq!(decoded, record);
        assert_eq!(end, buffer.len() - 2);
    }
}

#[test]
fn record_length_field_follows_the_data() {
    let mut record = address_record();
    record.rdata = vec![1, 2, 3, 4, 5, 6, 7];
    let bytes = record.to_bytes().unwrap();
    assert_eq!(&bytes[21..23], &[0, 7]);
    assert_eq!(&bytes[23..], &[1, 2, 3, 4, 5, 6, 7]);
    record.rdata = vec![];
    let bytes = record.to_bytes().unwrap();
    assert_eq!(&bytes[21..], &[0, 0]);
    assert_eq!(Answer::parse(&bytes, 0, DecodeMode::Strict), Ok((record, 23)));
}

#[test]
fn record_data_of_any_length_is_read_in_full() {
    let mut record = address_record();
    record.rdata = (0..300u32).map(|i| (i % 251) as u8).collect();
    let bytes = record.to_bytes().unwrap();
    assert_eq!(&bytes[21..23], &[0x01, 0x2C]);
    let (decoded, end) = Answer::parse(&bytes, 0, DecodeMode::Lenient).unwrap();
    assert_eq!(decoded.rdata.len(), 300);
    assert_eq!(decoded, record);
    assert_eq!(end, 323);
}

#[test]
fn record_data_beyond_the_buffer_is_truncated() {
    let mut bytes = address_record().to_bytes().unwrap();
    bytes.pop();
    assert_eq!(Answer::parse(&bytes, 0, DecodeMode::Lenient), Err(DnsError::TruncatedInput));
    assert_eq!(Answer::parse(&bytes, 0, DecodeMode::Strict), Err(DnsError::TruncatedInput));

    let mut bytes = EXAMPLE_COM.to_vec();
    bytes.extend_from_slice(&[0, 1, 0, 1, 0, 0, 0, 60, 0xFF, 0xFF, 1, 2, 3]);
    assert_eq!(Answer::parse(&bytes, 0, DecodeMode::Lenient), Err(DnsError::TruncatedInput));
}

#[test]
fn truncation_is_reported_before_unknown_codes() {
    let mut bytes = EXAMPLE_COM.to_vec();
    bytes.extend_from_slice(&[0, 99, 0, 99, 0, 0, 0, 60, 0, 5, 1, 2, 3, 4]);
    assert_eq!(Answer::parse(&bytes, 0, DecodeMode::Strict), Err(DnsError::TruncatedInput));
    bytes.push(5);
    assert_eq!(
        Answer::parse(&bytes, 0, DecodeMode::Strict),
        Err(DnsError::UnsupportedRecordType)
    );
}

#[test]
fn record_without_its_fixed_fields_is_truncated() {
    let full = address_record().to_bytes().unwrap();
    for len in 0..23 {
        assert_eq!(
            Answer::parse(&full[..len], 0, DecodeMode::Lenient),
            Err(DnsError::TruncatedInput)
        );
    }
}

#[test]
fn unknown_record_codes_are_kept_or_refused() {
    let mut bytes = EXAMPLE_COM.to_vec();
    bytes.extend_from_slice(&[0, 41, 0x10, 0x00, 0, 0, 0, 0, 0, 0]);
    let (record, end) = Answer::parse(&bytes, 0, DecodeMode::Lenient).unwrap();
    assert_eq!(record.rtype, ResourceType::Unknown(41));
    assert_eq!(record.rclass, ResourceClass::Unknown(0x1000));
    assert_eq!(end, bytes.len());
    assert_eq!(record.to_bytes(), Ok(bytes.clone()));
    assert_eq!(
        Answer::parse(&bytes, 0, DecodeMode::Strict),
        Err(DnsError::UnsupportedRecordType)
    );
    bytes[14] = 5;
    assert_eq!(
        Answer::parse(&bytes, 0, DecodeMode::Strict),
        Err(DnsError::UnsupportedRecordClass)
    );
}

#[test]
fn record_data_of_more_than_65535_bytes_is_out_of_range() {
    let mut record = address_record();
    record.rdata = vec![0; 65535];
    let bytes = record.to_bytes().unwrap();
    assert_eq!(&bytes[21..23], &[0xFF, 0xFF]);
    assert_eq!(bytes.len(), 23 + 65535);
    record.rdata = vec![0; 65536];
    assert_eq!(record.to_bytes(), Err(DnsError::ValueOutOfRange));
}

#[test]
fn long_label_is_reported_before_long_data() {
    let record = Answer {
        name: Name { labels: vec![vec![b'a'; 64]] },
        rtype: ResourceType::A,
        rclass: ResourceClass::IN,
        ttl: 0,
        rdata: vec![0; 65536],
    };
    assert_eq!(record.to_bytes(), Err(DnsError::LabelTooLong));
}

#[test]
fn record_name_may_be_compressed() {
    let mut buffer = EXAMPLE_COM.to_vec();
    buffer.extend_from_slice(&[0xC0, 0, 0, 5, 0, 1, 0, 0, 0x0E, 0x10, 0, 2, 0xC0, 0]);
    let (record, end) = Answer::parse(&buffer, 13, DecodeMode::Strict).unwrap();
    assert_eq!(record.name, Name::new("example.com"));
    assert_eq!(record.rtype, ResourceType::CNAME);
    assert_eq!(record.ttl, 3600);
    assert_eq!(record.rdata, vec![0xC0, 0]);
    assert_eq!(end, buffer.len());
}

#[test]
fn copies_are_equal() {
    let record = address_record();
    assert_eq!(record.clone(), record);
    let question = Question {
        name: Name::new("a.b"),
        qtype: ResourceType::Unknown(300),
        qclass: ResourceClass::HS,
    };
    assert_eq!(question.clone(), question);
}
