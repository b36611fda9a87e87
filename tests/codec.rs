use kwap::msg::{
    Byte1, Code, Id, Message, MessageParseError, MessageToBytesError, Opt, OptParseError, Payload,
    Token, Type, Version,
};

fn sample() -> Message {
    Message {
        id: Id(1),
        ty: Type::Con,
        ver: Version(1),
        token: Token(vec![254]),
        code: Code { class: 2, detail: 5 },
        opts: vec![Opt { delta: 12, value: b"application/json".to_vec() }],
        payload: Payload(b"hello, world!".to_vec()),
    }
}

#[test]
fn parse_msg() {
    let expect = sample();
    let bytes = expect.try_into_bytes().unwrap();
    assert_eq!(Message::try_from_bytes(&bytes).unwrap(), expect);
}

#[test]
fn parse_byte1() {
    let byte = 0b_01_10_0011u8;
    let byte = Byte1::from(byte);
    assert_eq!(byte, Byte1 { ver: Version(1), ty: Type::Ack, tkl: 3 })
}

#[test]
fn parse_id() {
    let id_bytes = 34u16.to_be_bytes();
    let id = Id::try_consume_bytes(&id_bytes).unwrap();
    assert_eq!(id, Id(34));
}

#[test]
fn parse_code() {
    let byte = 0b_01_000101u8;
    let code = Code::from(byte);
    assert_eq!(code, Code { class: 2, detail: 5 })
}

#[test]
fn parse_token() {
    let bytes = [0b0100_0001u8, 0x45, 0, 1, 0b_00000001u8];
    let msg = Message::try_from_bytes(&bytes).unwrap();
    assert_eq!(msg.token, Token(vec![1]));
}

#[test]
fn header_bytes_exact() {
    let bytes = sample().try_into_bytes().unwrap();
    assert_eq!(&bytes[..5], &[0b0100_0001, 0b010_00101, 0, 1, 254]);
    assert_eq!(bytes[5], 0xC0 | 13);
    assert_eq!(bytes[6], 16 - 13);
    assert_eq!(bytes[7 + 16], 0xFF);
    assert_eq!(&bytes[8 + 16..], b"hello, world!");
}

#[test]
fn option_extension_two_bytes() {
    let msg = Message {
        id: Id(7),
        ty: Type::Non,
        ver: Version(1),
        token: Token(vec![]),
        code: Code { class: 0, detail: 1 },
        opts: vec![Opt { delta: 270, value: vec![1, 2, 3, 4, 5] }],
        payload: Payload(vec![]),
    };
    let bytes = msg.try_into_bytes().unwrap();
    assert_eq!(&bytes[4..], &[0xE5, 0x00, 0x01, 1, 2, 3, 4, 5]);
    assert_eq!(Message::try_from_bytes(&bytes).unwrap(), msg);
}

#[test]
fn option_extension_one_byte_and_large() {
    let msg = Message {
        id: Id(0xABCD),
        ty: Type::Reset,
        ver: Version(1),
        token: Token(vec![1, 2, 3, 4, 5, 6, 7, 8]),
        code: Code { class: 4, detail: 4 },
        opts: vec![
            Opt { delta: 13, value: vec![9; 268] },
            Opt { delta: 0, value: vec![] },
            Opt { delta: 65804, value: vec![7; 269] },
        ],
        payload: Payload(vec![0xFF, 0]),
    };
    let bytes = msg.try_into_bytes().unwrap();
    assert_eq!(&bytes[..4], &[0b0111_1000, 0b100_00100, 0xAB, 0xCD]);
    assert_eq!(&bytes[12..15], &[0xDD, 0, 255]);
    assert_eq!(Message::try_from_bytes(&bytes).unwrap(), msg);
}

#[test]
fn option_too_long() {
    let mut msg = sample();
    msg.opts = vec![Opt { delta: 65805, value: vec![] }];
    assert_eq!(msg.try_into_bytes(), Err(MessageToBytesError::OptionValueTooLong));
}

#[test]
fn empty_payload_has_no_marker() {
    let mut msg = sample();
    msg.payload = Payload(vec![]);
    let bytes = msg.try_into_bytes().unwrap();
    assert!(!bytes.contains(&0xFF));
    assert_eq!(Message::try_from_bytes(&bytes).unwrap(), msg);
}

#[test]
fn parse_errors() {
    assert_eq!(Message::try_from_bytes(&[]), Err(MessageParseError::UnexpectedEndOfStream));
    assert_eq!(Message::try_from_bytes(&[0x49, 0, 0, 0]), Err(MessageParseError::InvalidTokenLength(9)));
    assert_eq!(Message::try_from_bytes(&[0x42, 0, 0, 0, 1]), Err(MessageParseError::UnexpectedEndOfStream));
    assert_eq!(Message::try_from_bytes(&[0x40, 0]), Err(MessageParseError::UnexpectedEndOfStream));
    assert_eq!(
        Message::try_from_bytes(&[0x40, 0, 0, 0, 0xF0]),
        Err(MessageParseError::OptParseError(OptParseError::OptionDeltaReservedValue(15)))
    );
    assert_eq!(
        Message::try_from_bytes(&[0x40, 0, 0, 0, 0x1F]),
        Err(MessageParseError::OptParseError(OptParseError::OptionLengthReservedValue(15)))
    );
    assert_eq!(
        Message::try_from_bytes(&[0x40, 0, 0, 0, 0xD0]),
        Err(MessageParseError::OptParseError(OptParseError::UnexpectedEndOfStream))
    );
    assert_eq!(
        Message::try_from_bytes(&[0x40, 0, 0, 0, 0x03, 1]),
        Err(MessageParseError::OptParseError(OptParseError::UnexpectedEndOfStream))
    );
}

#[test]
fn parse_id_too_short() {
    assert_eq!(Id::try_consume_bytes(&[1]), Err(MessageParseError::UnexpectedEndOfStream));
}
