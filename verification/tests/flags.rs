use dns_codec::error::DnsError;
use dns_codec::flags::{
    response_code_for, Flags, MessageOpcode, MessageType, RCODE_NOT_IMPLEMENTED, RCODE_NO_ERROR,
};

fn plain() -> Flags {
    Flags {
        is_response: false,
        opcode: 0,
        authoritative: false,
        truncated: false,
        recursion_desired: false,
        recursion_available: false,
        reserved: 0,
        response_code: 0,
    }
}

#[test]
fn new_flags_hold_only_the_message_type() {
    assert_eq!(Flags::new(MessageType::Query), plain());
    let mut reply = plain();
    reply.is_response = true;
    assert_eq!(Flags::new(MessageType::Reply), reply);
}

#[test]
fn new_flags_encode_to_one_bit() {
    assert_eq!(Flags::new(MessageType::Query).to_bytes(), Ok([0x00, 0x00]));
    assert_eq!(Flags::new(MessageType::Reply).to_bytes(), Ok([0x80, 0x00]));
}

#[test]
fn every_field_lands_on_its_bits() {
    let mut flags = plain();
    flags.opcode = 0x0F;
    assert_eq!(flags.to_bytes(), Ok([0x78, 0x00]));
    let mut flags = plain();
    flags.authoritative = true;
    assert_eq!(flags.to_bytes(), Ok([0x04, 0x00]));
    let mut flags = plain();
    flags.truncated = true;
    assert_eq!(flags.to_bytes(), Ok([0x02, 0x00]));
    let mut flags = plain();
    flags.recursion_desired = true;
    assert_eq!(flags.to_bytes(), Ok([0x01, 0x00]));
    let mut flags = plain();
    flags.recursion_available = true;
    assert_eq!(flags.to_bytes(), Ok([0x00, 0x80]));
    let mut flags = plain();
    flags.reserved = 7;
    assert_eq!(flags.to_bytes(), Ok([0x00, 0x70]));
    let mut flags = plain();
    flags.response_code = 0x0F;
    assert_eq!(flags.to_bytes(), Ok([0x00, 0x0F]));
}

#[test]
fn mixed_flags_encode_exactly() {
    let flags = Flags {
        is_response: true,
        opcode: 2,
        authoritative: true,
        truncated: false,
        recursion_desired: true,
        recursion_available: true,
        reserved: 5,
        response_code: 4,
    };
    assert_eq!(flags.to_bytes(), Ok([0x95, 0xD4]));
    assert_eq!(Flags::from_bytes([0x95, 0xD4]), flags);
}

#[test]
fn every_valid_combination_round_trips() {
    for bits in 0u8..32 {
        for opcode in 0u8..16 {
            for reserved in 0u8..8 {
                for response_code in 0u8..16 {
                    let flags = Flags {
                        is_response: bits & 1 != 0,
                        opcode,
                        authoritative: bits & 2 != 0,
                        truncated: bits & 4 != 0,
                        recursion_desired: bits & 8 != 0,
                        recursion_available: bits & 16 != 0,
                        reserved,
                        response_code,
                    };
                    let bytes = flags.to_bytes().unwrap();
                    assert_eq!(Flags::from_bytes(bytes), flags);
                }
            }
        }
    }
}

#[test]
fn every_flag_word_round_trips() {
    for high in 0u16..256 {
        for low in 0u16..256 {
            let bytes = [high as u8, low as u8];
            assert_eq!(Flags::from_bytes(bytes).to_bytes(), Ok(bytes));
        }
    }
}

#[test]
fn opcode_of_sixteen_is_out_of_range() {
    let mut flags = plain();
    flags.opcode = 16;
    assert_eq!(flags.to_bytes(), Err(DnsError::ValueOutOfRange));
    flags.opcode = 255;
    assert_eq!(flags.to_bytes(), Err(DnsError::ValueOutOfRange));
}

#[test]
fn response_code_of_sixteen_is_out_of_range() {
    let mut flags = plain();
    flags.response_code = 16;
    assert_eq!(flags.to_bytes(), Err(DnsError::ValueOutOfRange));
}

#[test]
fn reserved_of_eight_is_out_of_range() {
    let mut flags = plain();
    flags.reserved = 8;
    assert_eq!(flags.to_bytes(), Err(DnsError::ValueOutOfRange));
    flags.reserved = 7;
    assert!(flags.to_bytes().is_ok());
}

#[test]
fn message_type_from_its_bit() {
    assert_eq!(MessageType::try_from(0u8), Ok(MessageType::Query));
    assert_eq!(MessageType::try_from(1u8), Ok(MessageType::Reply));
    assert_eq!(MessageType::try_from(2u8), Err(DnsError::ValueOutOfRange));
    assert_eq!(MessageType::try_from(255u8), Err(DnsError::ValueOutOfRange));
}

#[test]
fn opcodes_have_their_codes() {
    assert_eq!(MessageOpcode::Query.code(), 0);
    assert_eq!(MessageOpcode::IQuery.code(), 1);
    assert_eq!(MessageOpcode::Status.code(), 2);
}

#[test]
fn only_a_standard_query_is_implemented() {
    assert_eq!(RCODE_NO_ERROR, 0);
    assert_eq!(RCODE_NOT_IMPLEMENTED, 4);
    assert_eq!(response_code_for(0), 0);
    assert_eq!(response_code_for(1), 4);
    assert_eq!(response_code_for(2), 4);
    assert_eq!(response_code_for(15), 4);
}

#[test]
fn flags_tell_their_message_type() {
    assert_eq!(Flags::new(MessageType::Query).message_type(), MessageType::Query);
    assert_eq!(Flags::new(MessageType::Reply).message_type(), MessageType::Reply);
    assert_eq!(Flags::from_bytes([0x80, 0]).message_type(), MessageType::Reply);
    assert_eq!(Flags::from_bytes([0x7F, 0xFF]).message_type(), MessageType::Query);
}
