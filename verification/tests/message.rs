use macro_deck::bytes::{format_decimal, parse_u32, text_of};
use macro_deck::message::Message;

#[test]
fn encode_puts_length_tag_and_arguments() {
    let frame = Message::new(b"wi".to_vec(), vec![b"/0/0".to_vec(), b"1234".to_vec()]);
    assert_eq!(frame.encode(), b"2wi /0/0 1234".to_vec());
}

#[test]
fn encode_without_arguments_is_length_and_tag() {
    let frame = Message::new(b"li".to_vec(), vec![]);
    assert_eq!(frame.encode(), b"2li".to_vec());
}

#[test]
fn encode_writes_the_length_of_a_long_tag_in_full() {
    let frame = Message::new(b"abcdefghijkl".to_vec(), vec![b"x".to_vec()]);
    assert_eq!(frame.encode(), b"12abcdefghijkl x".to_vec());
}

#[test]
fn encode_of_an_empty_tag_starts_with_zero() {
    let frame = Message::new(vec![], vec![b"a".to_vec()]);
    assert_eq!(frame.encode(), b"0 a".to_vec());
}

#[test]
fn to_string_shows_the_frame_as_text() {
    let frame = Message::new(b"ss".to_vec(), vec![b"7".to_vec(), b"3".to_vec(), b"635".to_vec()]);
    assert_eq!(frame.to_string(), Some("2ss 7 3 635".to_string()));
}

#[test]
fn to_string_has_no_text_for_bytes_that_are_none() {
    let frame = Message::new(b"ok".to_vec(), vec![vec![0xff, 0xfe]]);
    assert_eq!(frame.to_string(), None);
    assert_eq!(text_of(&[0xc3, 0xa9]), Some("\u{e9}".to_string()));
    assert_eq!(text_of(&[0xc3]), None);
}

#[test]
fn decode_reads_a_line_with_its_line_end() {
    let frame = Message::decode(b"2li 320 240 4 2 4\n").unwrap();
    assert_eq!(frame.message_type, b"li".to_vec());
    assert_eq!(
        frame.data,
        vec![b"320".to_vec(), b"240".to_vec(), b"4".to_vec(), b"2".to_vec(), b"4".to_vec()]
    );
}

#[test]
fn decode_takes_a_tag_of_three_bytes() {
    let frame = Message::decode(b"3rd? 1024\n").unwrap();
    assert_eq!(frame.message_type, b"rd?".to_vec());
    assert_eq!(frame.data, vec![b"1024".to_vec()]);
}

#[test]
fn decode_splits_at_runs_of_white_space() {
    let frame = Message::decode(b"2ld  /a \t /a/b\r\n").unwrap();
    assert_eq!(frame.message_type, b"ld".to_vec());
    assert_eq!(frame.data, vec![b"/a".to_vec(), b"/a/b".to_vec()]);
}

#[test]
fn decode_without_arguments_gives_none() {
    let frame = Message::decode(b"2ok\n").unwrap();
    assert_eq!(frame.message_type, b"ok".to_vec());
    assert!(frame.data.is_empty());
}

#[test]
fn decode_takes_the_argument_that_follows_the_tag_directly() {
    let frame = Message::decode(b"2bc/0/1\n").unwrap();
    assert_eq!(frame.message_type, b"bc".to_vec());
    assert_eq!(frame.data, vec![b"/0/1".to_vec()]);
}

#[test]
fn decode_refuses_an_empty_line() {
    assert!(Message::decode(b"").is_none());
}

#[test]
fn decode_refuses_a_first_byte_that_is_no_digit() {
    assert!(Message::decode(b"ok\n").is_none());
    assert!(Message::decode(b" 2ok\n").is_none());
}

#[test]
fn decode_refuses_a_tag_that_is_cut_short() {
    assert!(Message::decode(b"5ok").is_none());
    assert!(Message::decode(b"9").is_none());
}

#[test]
fn decode_gives_back_what_encode_wrote() {
    let tags: Vec<&[u8]> = vec![b"", b"a", b"li", b"rd?", b"ninebytes"];
    let lists: Vec<Vec<Vec<u8>>> = vec![
        vec![],
        vec![b"/0/0".to_vec()],
        vec![b"7".to_vec(), b"3".to_vec(), b"635".to_vec()],
        vec![vec![0x00, 0xff, 0x80], b"x".to_vec()],
    ];
    for tag in tags.iter() {
        for list in lists.iter() {
            let frame = Message::new(tag.to_vec(), list.clone());
            let back = Message::decode(&frame.encode()).unwrap();
            assert_eq!(back.message_type, tag.to_vec());
            assert_eq!(&back.data, list);
        }
    }
}

#[test]
fn an_empty_argument_does_not_survive_the_wire() {
    let frame = Message::new(b"ok".to_vec(), vec![vec![]]);
    let back = Message::decode(&frame.encode()).unwrap();
    assert_eq!(back.message_type, b"ok".to_vec());
    assert!(back.data.is_empty());
}

#[test]
fn has_tag_compares_the_whole_tag() {
    let frame = Message::new(b"rd?".to_vec(), vec![]);
    assert!(frame.has_tag(b"rd?"));
    assert!(!frame.has_tag(b"rd"));
}

#[test]
fn parse_u32_reads_plain_numerals() {
    assert_eq!(parse_u32(b"0"), Some(0));
    assert_eq!(parse_u32(b"320"), Some(320));
    assert_eq!(parse_u32(b"007"), Some(7));
    assert_eq!(parse_u32(b"+5"), Some(5));
    assert_eq!(parse_u32(b"4294967295"), Some(4294967295));
}

#[test]
fn parse_u32_refuses_what_is_no_numeral_or_too_large() {
    assert_eq!(parse_u32(b""), None);
    assert_eq!(parse_u32(b"+"), None);
    assert_eq!(parse_u32(b"-1"), None);
    assert_eq!(parse_u32(b"12a"), None);
    assert_eq!(parse_u32(b" 12"), None);
    assert_eq!(parse_u32(b"4294967296"), None);
    assert_eq!(parse_u32(b"99999999999999999999999999"), None);
    assert_eq!(parse_u32(b"99999999999x"), None);
}

#[test]
fn format_decimal_writes_the_shortest_numeral() {
    assert_eq!(format_decimal(0), b"0".to_vec());
    assert_eq!(format_decimal(9), b"9".to_vec());
    assert_eq!(format_decimal(10), b"10".to_vec());
    assert_eq!(format_decimal(635), b"635".to_vec());
    assert_eq!(format_decimal(18446744073709551615), b"18446744073709551615".to_vec());
}

#[test]
fn parse_reads_what_format_wrote() {
    for n in [0u32, 1, 9, 10, 99, 100, 65535, 4294967295] {
        assert_eq!(parse_u32(&format_decimal(n as u64)), Some(n));
    }
}
