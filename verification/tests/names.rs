use dns_codec::error::DnsError;
use dns_codec::name::Name;

fn labels(parts: &[&str]) -> Vec<Vec<u8>> {
    parts.iter().map(|part| part.as_bytes().to_vec()).collect()
}

#[test]
fn example_com_encodes_to_length_prefixed_labels() {
    let name = Name::new("example.com");
    assert_eq!(name.labels, labels(&["example", "com"]));
    let bytes = name.to_bytes().unwrap();
    assert_eq!(
        bytes,
        vec![7, b'e', b'x', b'a', b'm', b'p', b'l', b'e', 3, b'c', b'o', b'm', 0]
    );
    let (decoded, end) = Name::parse(&bytes, 0).unwrap();
    assert_eq!(decoded.labels, labels(&["example", "com"]));
    assert_eq!(decoded, name);
    assert_eq!(end, 13);
}

#[test]
fn empty_text_is_the_root() {
    let root = Name::new("");
    assert!(root.labels.is_empty());
    assert_eq!(root.to_bytes(), Ok(vec![0]));
    assert_eq!(Name::parse(&[0], 0), Ok((Name { labels: vec![] }, 1)));
    assert_eq!(root.to_text(), Vec::<u8>::new());
}

#[test]
fn text_is_cut_at_every_dot() {
    assert_eq!(Name::new("com").labels, labels(&["com"]));
    assert_eq!(Name::new("a.b.c").labels, labels(&["a", "b", "c"]));
    assert_eq!(Name::new("a..b").labels, labels(&["a", "", "b"]));
    assert_eq!(Name::new("a.").labels, labels(&["a", ""]));
    assert_eq!(Name::new(".a").labels, labels(&["", "a"]));
    assert_eq!(Name::new(".").labels, labels(&["", ""]));
}

#[test]
fn labels_are_written_with_dots_between_them() {
    for text in ["example.com", "com", "a.b.c", "a..b", "a.", ".a", ".", "www.example.org"] {
        assert_eq!(Name::new(text).to_text(), text.as_bytes().to_vec());
    }
    let name = Name { labels: labels(&["mail", "example", "net"]) };
    assert_eq!(name.to_text(), b"mail.example.net".to_vec());
}

#[test]
fn label_of_63_bytes_is_the_longest() {
    let longest = Name { labels: vec![vec![b'a'; 63]] };
    let bytes = longest.to_bytes().unwrap();
    assert_eq!(bytes.len(), 65);
    assert_eq!(bytes[0], 63);
    assert_eq!(bytes[64], 0);
    assert_eq!(Name::parse(&bytes, 0), Ok((longest, 65)));

    let too_long = Name { labels: vec![vec![b'a'; 64]] };
    assert_eq!(too_long.to_bytes(), Err(DnsError::LabelTooLong));
    let later = Name { labels: vec![b"ok".to_vec(), vec![b'b'; 200]] };
    assert_eq!(later.to_bytes(), Err(DnsError::LabelTooLong));
}

#[test]
fn name_is_decoded_where_it_stands() {
    let mut buffer = vec![0xEE; 5];
    buffer.extend_from_slice(&[3, b'w', b'w', b'w', 2, b'a', b'b', 0, 0xEE]);
    let (name, end) = Name::parse(&buffer, 5).unwrap();
    assert_eq!(name.labels, labels(&["www", "ab"]));
    assert_eq!(end, 13);
}

#[test]
fn pointer_appends_the_name_it_refers_to() {
    let mut buffer = vec![0u8; 12];
    buffer.extend_from_slice(&[7, b'e', b'x', b'a', b'm', b'p', b'l', b'e', 3, b'c', b'o', b'm', 0]);
    buffer.extend_from_slice(&[3, b'w', b'w', b'w', 0xC0, 12]);
    buffer.extend_from_slice(&[0xC0, 20]);
    let (name, end) = Name::parse(&buffer, 25).unwrap();
    assert_eq!(name.labels, labels(&["www", "example", "com"]));
    assert_eq!(end, 31);
    let (name, end) = Name::parse(&buffer, 31).unwrap();
    assert_eq!(name.labels, labels(&["com"]));
    assert_eq!(end, 33);
}

#[test]
fn pointer_may_refer_forward_and_chain() {
    // 0: pointer to 4; 2: filler; 4: "a" then pointer to 8; 8: "b", end.
    let buffer = [0xC0, 4, 0xEE, 0xEE, 1, b'a', 0xC0, 8, 1, b'b', 0];
    let (name, end) = Name::parse(&buffer, 0).unwrap();
    assert_eq!(name.labels, labels(&["a", "b"]));
    assert_eq!(end, 2);
}

#[test]
fn pointer_uses_fourteen_bits() {
    let mut buffer = vec![0xEE; 0x0234];
    buffer.extend_from_slice(&[2, b'h', b'i', 0]);
    buffer.extend_from_slice(&[0xC2, 0x34]);
    let (name, end) = Name::parse(&buffer, 0x0238).unwrap();
    assert_eq!(name.labels, labels(&["hi"]));
    assert_eq!(end, 0x023A);
}

#[test]
fn pointer_to_itself_is_a_loop() {
    let mut buffer = vec![0u8; 12];
    buffer.extend_from_slice(&[0xC0, 12]);
    assert_eq!(Name::parse(&buffer, 12), Err(DnsError::CompressionLoop));
    assert_eq!(Name::parse(&[0xC0, 0], 0), Err(DnsError::CompressionLoop));
}

#[test]
fn pointers_in_a_cycle_are_a_loop() {
    let buffer = [0xC0, 2, 0xC0, 4, 0xC0, 0];
    assert_eq!(Name::parse(&buffer, 0), Err(DnsError::CompressionLoop));
    assert_eq!(Name::parse(&buffer, 2), Err(DnsError::CompressionLoop));
    assert_eq!(Name::parse(&buffer, 4), Err(DnsError::CompressionLoop));
}

#[test]
fn pointer_back_into_the_same_name_is_a_loop() {
    let buffer = [1, b'a', 1, b'b', 0xC0, 0];
    assert_eq!(Name::parse(&buffer, 0), Err(DnsError::CompressionLoop));
    let buffer = [1, b'a', 1, b'b', 0xC0, 2];
    assert_eq!(Name::parse(&buffer, 0), Err(DnsError::CompressionLoop));
}

#[test]
fn pointer_past_the_end_is_invalid() {
    assert_eq!(Name::parse(&[0xC0, 2], 0), Err(DnsError::InvalidPointer));
    assert_eq!(Name::parse(&[0xFF, 0xFF, 0], 0), Err(DnsError::InvalidPointer));
    assert_eq!(Name::parse(&[1, b'a', 0xC0, 200, 0], 0), Err(DnsError::InvalidPointer));
}

#[test]
fn name_that_runs_off_the_buffer_is_truncated() {
    assert_eq!(Name::parse(&[], 0), Err(DnsError::TruncatedInput));
    assert_eq!(Name::parse(&[0], 1), Err(DnsError::TruncatedInput));
    assert_eq!(Name::parse(&[0], usize::MAX), Err(DnsError::TruncatedInput));
    assert_eq!(Name::parse(&[3, b'a', b'b'], 0), Err(DnsError::TruncatedInput));
    assert_eq!(Name::parse(&[3, b'a', b'b', b'c'], 0), Err(DnsError::TruncatedInput));
    assert_eq!(Name::parse(&[0xC0], 0), Err(DnsError::TruncatedInput));
    assert_eq!(Name::parse(&[1, b'a', 0xC0], 0), Err(DnsError::TruncatedInput));
}

#[test]
fn long_length_byte_is_read_as_a_label() {
    let mut buffer = vec![100u8];
    buffer.extend_from_slice(&[b'x'; 100]);
    buffer.push(0);
    let (name, end) = Name::parse(&buffer, 0).unwrap();
    assert_eq!(name.labels, vec![vec![b'x'; 100]]);
    assert_eq!(end, 102);
    assert_eq!(name.to_bytes(), Err(DnsError::LabelTooLong));
}

#[test]
fn copy_has_the_same_labels() {
    let name = Name::new("www.example.com");
    let copy = name.clone();
    assert_eq!(copy, name);
    assert_eq!(copy.labels, labels(&["www", "example", "com"]));
}

#[test]
fn name_beyond_the_reach_of_pointers_may_still_use_one() {
    let mut buffer = vec![0xEE; 0x6000];
    buffer[16..20].copy_from_slice(&[2, b'h', b'i', 0]);
    buffer[0x5000..0x5004].copy_from_slice(&[1, b'a', 0xC0, 16]);
    let (name, end) = Name::parse(&buffer, 0x5000).unwrap();
    assert_eq!(name.labels, labels(&["a", "hi"]));
    assert_eq!(end, 0x5004);
    buffer[16..18].copy_from_slice(&[0xC0, 16]);
    assert_eq!(Name::parse(&buffer, 0x5000), Err(DnsError::CompressionLoop));
    buffer[16..18].copy_from_slice(&[0xFF, 0xFF]);
    buffer[0x3FFF] = 0;
    let (name, end) = Name::parse(&buffer, 0x5000).unwrap();
    assert_eq!(name.labels, labels(&["a"]));
    assert_eq!(end, 0x5004);
}

#[test]
fn long_chain_of_pointers_ends() {
    let links = 8000usize;
    let mut buffer = Vec::new();
    for link in 0..links {
        let target = 2 * (link + 1);
        buffer.push(0xC0 | (target >> 8) as u8);
        buffer.push((target & 0xFF) as u8);
    }
    buffer.extend_from_slice(&[3, b'e', b'n', b'd', 0]);
    let (name, end) = Name::parse(&buffer, 0).unwrap();
    assert_eq!(name.labels, labels(&["end"]));
    assert_eq!(end, 2);
    let last = 2 * links;
    buffer[last] = 0xC0;
    buffer[last + 1] = 0x00;
    buffer[last + 2] = 0;
    assert_eq!(Name::parse(&buffer, 0), Err(DnsError::CompressionLoop));
    assert_eq!(Name::parse(&buffer, 100), Err(DnsError::CompressionLoop));
}
