use resolve::message::{
    is_valid_name, DecodeError, EncodeError, Header, Message, MsgReader, MsgWriter, OpCode, Qr,
    Question, RCode, Resource,
};
use resolve::record::{Class, RecordType};

#[test]
fn test_idna_name() {
    let mut buf = [0; 64];
    let mut w = MsgWriter::new(&mut buf);

    w.write_name("bücher.de.").unwrap();
    w.write_name("ουτοπία.δπθ.gr.").unwrap();

    let bytes = w.into_bytes();

    assert_eq!(
        bytes,
        &b"\
            \x0dxn--bcher-kva\x02de\x00\
            \x0exn--kxae4bafwg\x09xn--pxaix\x02gr\x00\
            "[..]
    );

    let mut r = MsgReader::new(&bytes);

    assert_eq!(r.read_name().as_ref().map(|s| &s[..]), Ok("bücher.de."));
    assert_eq!(r.read_name().as_ref().map(|s| &s[..]), Ok("ουτοπία.δπθ.gr."));
}

#[test]
fn test_message() {
    let msg = Message {
        header: Header {
            id: 0xabcd,
            qr: Qr::Query,
            op: OpCode::Query,
            authoritative: false,
            truncated: false,
            recursion_desired: true,
            recursion_available: true,
            rcode: RCode::NoError,
        },
        question: vec![Question::new("foo.bar.com.".to_owned(), RecordType::A, Class::Internet)],
        answer: Vec::new(),
        authority: Vec::new(),
        additional: Vec::new(),
    };

    let mut buf = [0; 64];
    let bytes = msg.encode(&mut buf).unwrap();

    assert_eq!(
        bytes,
        &[
            0xab, 0xcd, 0b00000001, 0b10000000, 0, 1, 0, 0, 0, 0, 0, 0, 3, b'f', b'o', b'o', 3,
            b'b', b'a', b'r', 3, b'c', b'o', b'm', 0, 0, 1, 0, 1
        ][..]
    );

    let msg2 = Message::decode(&bytes).unwrap();

    assert_eq!(msg, msg2);
}

#[test]
fn test_primitives() {
    let mut buf = [0; 64];
    let mut w = MsgWriter::new(&mut buf);

    w.write_byte(0x11).unwrap();
    w.write_u16(0x2233).unwrap();
    w.write_u32(0x44556677).unwrap();
    w.write_name("alpha.bravo.charlie").unwrap();
    w.write_name("delta.echo.foxtrot.").unwrap();
    w.write_name(".").unwrap();

    assert_eq!(w.write_name(""), Err(EncodeError::InvalidName));
    assert_eq!(
        w.write_name("ohmyglobhowdidthisgethereiamnotgoodwithcomputerrrrrrrrrrrrrrrrrr.org"),
        Err(EncodeError::InvalidName)
    );

    let bytes = w.into_bytes();

    assert_eq!(
        bytes,
        &b"\
            \x11\
            \x22\x33\
            \x44\x55\x66\x77\
            \x05alpha\x05bravo\x07charlie\x00\
            \x05delta\x04echo\x07foxtrot\x00\
            \x00"[..]
    );

    let mut r = MsgReader::new(&bytes);

    assert_eq!(r.read_byte(), Ok(0x11));
    assert_eq!(r.read_u16(), Ok(0x2233));
    assert_eq!(r.read_u32(), Ok(0x44556677));
    assert_eq!(r.read_name().as_ref().map(|s| &s[..]), Ok("alpha.bravo.charlie."));
    assert_eq!(r.read_name().as_ref().map(|s| &s[..]), Ok("delta.echo.foxtrot."));
    assert_eq!(r.read_name().as_ref().map(|s| &s[..]), Ok("."));
}

const LONGEST_NAME: &'static str = "aaaaaaaaaaaaaaaaaaaaaaaa.aaaaaaaaaaaaaaaaaaaaaaaaa\
     aaaaaaaaaaaaaaaaaaaaaaaa.aaaaaaaaaaaaaaaaaaaaaaaaa\
     aaaaaaaaaaaaaaaaaaaaaaaa.aaaaaaaaaaaaaaaaaaaaaaaaa\
     aaaaaaaaaaaaaaaaaaaaaaaa.aaaaaaaaaaaaaaaaaaaaaaaaa\
     aaaaaaaaaaaaaaaaaaaaaaaa.aaaaaaaaaaaaaaaaaaaaaaaa\
     .com";
const LONGEST_NAME_DOT: &'static str = "aaaaaaaaaaaaaaaaaaaaaaaa.aaaaaaaaaaaaaaaaaaaaaaaaa\
     aaaaaaaaaaaaaaaaaaaaaaaa.aaaaaaaaaaaaaaaaaaaaaaaaa\
     aaaaaaaaaaaaaaaaaaaaaaaa.aaaaaaaaaaaaaaaaaaaaaaaaa\
     aaaaaaaaaaaaaaaaaaaaaaaa.aaaaaaaaaaaaaaaaaaaaaaaaa\
     aaaaaaaaaaaaaaaaaaaaaaaa.aaaaaaaaaaaaaaaaaaaaaaaa\
     .com.";
const TOO_LONG_NAME: &'static str = "aaaaaaaaaaaaaaaaaaaaaaaa.aaaaaaaaaaaaaaaaaaaaaaaaa\
     aaaaaaaaaaaaaaaaaaaaaaaa.aaaaaaaaaaaaaaaaaaaaaaaaa\
     aaaaaaaaaaaaaaaaaaaaaaaa.aaaaaaaaaaaaaaaaaaaaaaaaa\
     aaaaaaaaaaaaaaaaaaaaaaaa.aaaaaaaaaaaaaaaaaaaaaaaaa\
     aaaaaaaaaaaaaaaaaaaaaaaa.aaaaaaaaaaaaaaaaaaaaaaaaa\
     .com";
const TOO_LONG_NAME_DOT: &'static str = "aaaaaaaaaaaaaaaaaaaaaaaa.aaaaaaaaaaaaaaaaaaaaaaaaa\
     aaaaaaaaaaaaaaaaaaaaaaaa.aaaaaaaaaaaaaaaaaaaaaaaaa\
     aaaaaaaaaaaaaaaaaaaaaaaa.aaaaaaaaaaaaaaaaaaaaaaaaa\
     aaaaaaaaaaaaaaaaaaaaaaaa.aaaaaaaaaaaaaaaaaaaaaaaaa\
     aaaaaaaaaaaaaaaaaaaaaaaa.aaaaaaaaaaaaaaaaaaaaaaaaa\
     .com.";
const TOO_LONG_SEGMENT: &'static str = "aaaaaaaaaaaaaaaaaaaaaaaaaaaaaaaaaaaaaaaaaaaaaaaaaa\
     aaaaaaaaaaaaaa.com";

#[test]
fn test_encode_name() {
    let mut buf = [0; 512];
    let mut w = MsgWriter::new(&mut buf);

    w.write_name(LONGEST_NAME).unwrap();
    w.write_name(LONGEST_NAME_DOT).unwrap();

    let bytes = w.into_bytes();
    let mut r = MsgReader::new(&bytes);

    assert_eq!(r.read_name().as_ref().map(|s| &s[..]), Ok(LONGEST_NAME_DOT));
    assert_eq!(r.read_name().as_ref().map(|s| &s[..]), Ok(LONGEST_NAME_DOT));

    let mut buf = [0; 512];
    let mut w = MsgWriter::new(&mut buf);

    assert_eq!(w.write_name(TOO_LONG_NAME), Err(EncodeError::InvalidName));
    assert_eq!(w.write_name(TOO_LONG_NAME_DOT), Err(EncodeError::InvalidName));
    assert_eq!(w.write_name(TOO_LONG_SEGMENT), Err(EncodeError::InvalidName));
}

#[test]
fn test_valid_name() {
    assert!(is_valid_name("."));
    assert!(is_valid_name("foo.com."));
    assert!(is_valid_name("foo-123.com."));
    assert!(is_valid_name("FOO-BAR.COM"));

    assert!(!is_valid_name(""));
    assert!(!is_valid_name(".foo.com"));
    assert!(!is_valid_name("foo..bar.com"));
}

#[test]
fn longest_name_is_255_bytes_and_one_more_fails() {
    let mut buf = [0; 512];
    let mut w = MsgWriter::new(&mut buf);
    w.write_name(LONGEST_NAME).unwrap();
    assert_eq!(w.written(), 255);
    let longer = LONGEST_NAME.replacen("a", "aa", 1);
    assert_eq!(w.write_name(&longer), Err(EncodeError::InvalidName));
    assert_eq!(w.written(), 255);
}

#[test]
fn root_name_round_trips() {
    let mut buf = [0; 8];
    let mut w = MsgWriter::new(&mut buf);
    w.write_name(".").unwrap();
    let bytes = w.into_bytes();
    assert_eq!(bytes, &[0u8][..]);
    let mut r = MsgReader::new(bytes);
    assert_eq!(r.read_name(), Ok(".".to_owned()));
}

#[test]
fn name_without_dot_gains_one() {
    let mut buf = [0; 64];
    let mut w = MsgWriter::new(&mut buf);
    w.write_name("Example.ORG").unwrap();
    let bytes = w.into_bytes();
    let mut r = MsgReader::new(bytes);
    assert_eq!(r.read_name(), Ok("Example.ORG.".to_owned()));
    assert_eq!(r.remaining(), 0);
}

#[test]
fn compression_pointer_is_followed() {
    // "foo.com." at 0, then "www" + pointer to 0 at 9.
    let data = [
        3, b'f', b'o', b'o', 3, b'c', b'o', b'm', 0, 3, b'w', b'w', b'w', 0xc0, 0, 7,
    ];
    let mut r = MsgReader::new(&data);
    assert_eq!(r.read_name(), Ok("foo.com.".to_owned()));
    assert_eq!(r.read_name(), Ok("www.foo.com.".to_owned()));
    assert_eq!(r.read_byte(), Ok(7));
}

#[test]
fn pointer_to_own_start_is_invalid_name() {
    let data = [0xc0, 0];
    let mut r = MsgReader::new(&data);
    assert_eq!(r.read_name(), Err(DecodeError::InvalidName));

    let data = [1, b'a', 0xc0, 0];
    let mut r = MsgReader::new(&data);
    assert_eq!(r.read_name(), Err(DecodeError::InvalidName));

    let data = [0, 0xc0, 5, 0];
    let mut r = MsgReader::new(&data);
    assert_eq!(r.read_byte(), Ok(0));
    assert_eq!(r.read_name(), Err(DecodeError::InvalidName));
}

#[test]
fn pointer_chain_back_to_itself_is_invalid_name() {
    // A pointer at 2 to 0, where another pointer leads back to 2.
    let data = [0xc0, 2, 0xc0, 0];
    let mut r = MsgReader::new(&data);
    r.read_u16().unwrap();
    assert_eq!(r.read_name(), Err(DecodeError::InvalidName));
}

#[test]
fn message_pointer_loop_fails_decode() {
    let mut data = vec![0x12, 0x34, 0x80, 0, 0, 1, 0, 0, 0, 0, 0, 0];
    data.extend_from_slice(&[0xc0, 12, 0, 1, 0, 1]);
    assert_eq!(Message::decode(&data), Err(DecodeError::InvalidName));
}

#[test]
fn label_length_bits_01_and_10_are_invalid_message() {
    let data = [0x40, 0];
    assert_eq!(MsgReader::new(&data).read_name(), Err(DecodeError::InvalidMessage));
    let data = [0x80, 0];
    assert_eq!(MsgReader::new(&data).read_name(), Err(DecodeError::InvalidMessage));
}

#[test]
fn label_with_bad_bytes_is_invalid_name() {
    let data = [3, b'a', b' ', b'b', 0];
    assert_eq!(MsgReader::new(&data).read_name(), Err(DecodeError::InvalidName));
    let data = [3, b'-', b'a', b'b', 0];
    assert_eq!(MsgReader::new(&data).read_name(), Err(DecodeError::InvalidName));
    let data = [2, 0xc3, 0xbc, 0];
    assert_eq!(MsgReader::new(&data).read_name(), Err(DecodeError::InvalidName));
}

#[test]
fn truncated_name_is_short_message() {
    let data = [5, b'a', b'b'];
    assert_eq!(MsgReader::new(&data).read_name(), Err(DecodeError::ShortMessage));
    let data = [1, b'a'];
    assert_eq!(MsgReader::new(&data).read_name(), Err(DecodeError::ShortMessage));
}

#[test]
fn header_bit_layout() {
    let mut msg = Message::with_id(0xabcd);
    msg.header.recursion_desired = true;
    msg.header.recursion_available = true;
    msg.question.push(Question::new("a.".to_owned(), RecordType::A, Class::Internet));
    let mut buf = [0; 512];
    let bytes = msg.encode(&mut buf).unwrap();
    assert_eq!(&bytes[..12], &[0xab, 0xcd, 0x01, 0x80, 0, 1, 0, 0, 0, 0, 0, 0][..]);
    assert_eq!(Message::decode(bytes).unwrap(), msg);
}

#[test]
fn header_flags_and_codes_round_trip() {
    let mut msg = Message::with_id(7);
    msg.header.qr = Qr::Response;
    msg.header.op = OpCode::Update;
    msg.header.authoritative = true;
    msg.header.truncated = true;
    msg.header.rcode = RCode::Refused;
    let mut buf = [0; 64];
    let bytes = msg.encode(&mut buf).unwrap().to_vec();
    assert_eq!(bytes, vec![0, 7, 0x80 | (5 << 3) | 4 | 2, 5, 0, 0, 0, 0, 0, 0, 0, 0]);
    assert_eq!(Message::decode(&bytes).unwrap(), msg);
    assert_eq!(msg.get_error(), Err(resolve::message::DnsError(RCode::Refused)));
}

#[test]
fn codes_map_both_ways() {
    assert_eq!(OpCode::from_u8(2), OpCode::Status);
    assert_eq!(OpCode::from_u8(9), OpCode::Other(9));
    assert_eq!(OpCode::Notify.to_u8(), 4);
    assert_eq!(RCode::from_u8(3), RCode::NameError);
    assert_eq!(RCode::Other(12).to_u8(), 12);
    assert_eq!(RCode::ServerFailure.get_error(), "server failure");
    assert_eq!(Class::from_u16(255), Class::Any);
    assert_eq!(Class::Other(3).to_u16(), 3);
    assert_eq!(RecordType::from_u16(33), RecordType::Srv);
    assert_eq!(RecordType::AAAA.to_u16(), 28);
    assert_eq!(RecordType::from_u16(99), RecordType::Other(99));
}

#[test]
fn message_over_512_bytes_is_too_long() {
    let mut msg = Message::with_id(1);
    for _ in 0..20 {
        msg.question.push(Question::new(
            "abcdefghijklmnopqrst.example.com.".to_owned(),
            RecordType::A,
            Class::Internet,
        ));
    }
    let mut buf = [0; 4096];
    assert_eq!(msg.encode(&mut buf), Err(EncodeError::TooLong));
    let mut small = [0; 16];
    let mut one = Message::with_id(1);
    one.question.push(Question::new("example.com.".to_owned(), RecordType::A, Class::Internet));
    assert_eq!(one.encode(&mut small), Err(EncodeError::TooLong));
}

#[test]
fn writer_stops_at_message_limit() {
    let mut buf = [0; 1024];
    let mut w = MsgWriter::new(&mut buf);
    let chunk = [0u8; 500];
    w.write(&chunk).unwrap();
    assert_eq!(w.write(&[0u8; 13]), Err(EncodeError::TooLong));
    w.write(&[0u8; 12]).unwrap();
    assert_eq!(w.write_byte(1), Err(EncodeError::TooLong));
    assert_eq!(w.written(), 512);
}

#[test]
fn extraneous_data_after_message() {
    let mut data = vec![0, 1, 0, 0, 0, 0, 0, 0, 0, 0, 0, 0];
    assert!(Message::decode(&data).is_ok());
    data.push(0);
    assert_eq!(Message::decode(&data), Err(DecodeError::ExtraneousData));
}

#[test]
fn short_header_is_short_message() {
    assert_eq!(Message::decode(&[0, 1, 2]), Err(DecodeError::ShortMessage));
}

#[test]
fn resource_round_trips_through_message() {
    let mut msg = Message::with_id(9);
    msg.header.qr = Qr::Response;
    let mut rr = Resource::new("host.example.".to_owned(), RecordType::A, Class::Internet, 300);
    rr.data = vec![192, 0, 2, 1];
    msg.answer.push(rr.clone());
    msg.additional.push(rr);
    let mut buf = [0; 512];
    let bytes = msg.encode(&mut buf).unwrap().to_vec();
    let back = Message::decode(&bytes).unwrap();
    assert_eq!(back, msg);
    let mut it = back.records();
    assert!(it.next().is_some());
    assert!(it.next().is_some());
    assert!(it.next().is_none());
    let mut owned = back.into_records();
    assert_eq!(owned.next().unwrap().ttl, 300);
    assert!(owned.next().is_some());
    assert!(owned.next().is_none());
}

#[test]
fn reader_reports_short_reads() {
    let data = [1, 2, 3];
    let mut r = MsgReader::new(&data);
    let mut buf = [0u8; 4];
    assert_eq!(r.read(&mut buf), Err(DecodeError::ShortMessage));
    let mut buf = [0u8; 2];
    assert_eq!(r.read(&mut buf), Ok(()));
    assert_eq!(buf, [1, 2]);
    assert_eq!(r.read_u16(), Err(DecodeError::ShortMessage));
    let mut v = vec![9];
    r.read_into(&mut v, 1).unwrap();
    assert_eq!(v, vec![9, 3]);
    assert!(r.finish().is_ok());
}

#[test]
fn character_string_round_trip() {
    let mut buf = [0; 16];
    let mut w = MsgWriter::new(&mut buf);
    w.write_character_string(b"hi").unwrap();
    let bytes = w.into_bytes();
    assert_eq!(bytes, &[2, b'h', b'i'][..]);
    let mut r = MsgReader::new(bytes);
    assert_eq!(r.read_character_string(), Ok(b"hi".to_vec()));
    let mut buf = [0; 512];
    let mut w = MsgWriter::new(&mut buf);
    assert_eq!(w.write_character_string(&[0u8; 256]), Err(EncodeError::TooLong));
}

#[test]
fn id_sequence_wraps() {
    let mut ids = resolve::message::IdSequence::seeded(0xfffe);
    assert_eq!(ids.next_id(), 0xfffe);
    assert_eq!(ids.next_id(), 0xffff);
    assert_eq!(ids.next_id(), 0);
    let h = Header::with_id(5);
    assert_eq!(h.id, 5);
    assert_eq!(h.qr, Qr::Query);
    assert!(!h.recursion_desired);
}
