use coapable::codes::{ContentFormat, MessageClass, MessageType, RequestType, ResponseType};
use coapable::message::{
    decode_uint_option, encode_uint_option, CoapRequest, CoapResponse, CoapResponseBuilder, MessageError,
};
use coapable::path::{join_path, normalize_path, split_path};
use coapable::wire::{Message, OPTION_CONTENT_FORMAT, OPTION_URI_PATH, OPTION_URI_QUERY};

fn message(t: MessageType, code: MessageClass, mid: u16, token: Vec<u8>) -> Message {
    Message { message_type: t, code, message_id: mid, token, options: Vec::new(), payload: Vec::new() }
}

#[test]
fn code_numbers_follow_the_registry() {
    assert_eq!(MessageClass::from_code(0x00), MessageClass::Empty);
    assert_eq!(MessageClass::from_code(0x01), MessageClass::Request(RequestType::Get));
    assert_eq!(MessageClass::from_code(0x45), MessageClass::Response(ResponseType::Content));
    assert_eq!(MessageClass::from_code(0x84), MessageClass::Response(ResponseType::NotFound));
    assert_eq!(MessageClass::Request(RequestType::Post).code(), 0x02);
    assert_eq!(MessageClass::Response(ResponseType::MethodNotAllowed).code(), 0x85);
    assert_eq!(MessageClass::from_code(0x1f), MessageClass::Reserved(0x1f));
    for c in 0..=255u8 {
        assert_eq!(MessageClass::from_code(c).code(), c);
    }
}

#[test]
fn message_type_bits_roundtrip() {
    for b in 0..4u8 {
        assert_eq!(MessageType::from_bits(b).bits(), b);
    }
    assert_eq!(MessageType::Acknowledgement.bits(), 2);
}

#[test]
fn content_format_numbers_roundtrip() {
    assert_eq!(ContentFormat::ApplicationJSON.number(), 50);
    assert_eq!(ContentFormat::from_number(50), Some(ContentFormat::ApplicationJSON));
    assert_eq!(ContentFormat::from_number(0), Some(ContentFormat::TextPlain));
    assert_eq!(ContentFormat::from_number(9999), None);
    for n in 0..=u16::MAX {
        if let Some(f) = ContentFormat::from_number(n) {
            assert_eq!(f.number(), n);
        }
    }
}

#[test]
fn uint_option_encoding() {
    assert_eq!(encode_uint_option(0), Vec::<u8>::new());
    assert_eq!(encode_uint_option(50), vec![50]);
    assert_eq!(encode_uint_option(0x1234), vec![0x12, 0x34]);
    assert_eq!(decode_uint_option(&[0x12, 0x34]), Some(0x1234));
    assert_eq!(decode_uint_option(&[]), Some(0));
    assert_eq!(decode_uint_option(&[1, 2, 3]), None);
}

#[test]
fn wire_encoding_matches_coap_lite() {
    let mut m = message(MessageType::Confirmable, MessageClass::Request(RequestType::Get), 0x1234, vec![1, 2]);
    m.options.push((OPTION_URI_PATH, b"sensors".to_vec()));
    m.options.push((OPTION_URI_PATH, b"temp".to_vec()));
    m.payload = b"hi".to_vec();
    let bytes = m.encode().unwrap();
    assert_eq!(bytes[0], 0x42);
    assert_eq!(bytes[1], 0x01);
    assert_eq!(&bytes[2..4], &[0x12, 0x34]);
    assert_eq!(&bytes[4..6], &[1, 2]);

    let p = coap_lite::Packet::from_bytes(&bytes).unwrap();
    assert_eq!(p.header.message_id, 0x1234);
    assert_eq!(p.get_token(), &[1, 2]);
    assert_eq!(p.payload, b"hi".to_vec());

    let back = Message::decode(&bytes).unwrap();
    assert_eq!(back.message_type, MessageType::Confirmable);
    assert_eq!(back.code, MessageClass::Request(RequestType::Get));
    assert_eq!(back.message_id, 0x1234);
    assert_eq!(back.token, vec![1, 2]);
    assert_eq!(back.options, m.options);
    assert_eq!(back.payload, b"hi".to_vec());
    assert_eq!(back.option_values(OPTION_URI_PATH), vec![b"sensors".to_vec(), b"temp".to_vec()]);
}

#[test]
fn undecodable_datagram_is_rejected() {
    assert!(Message::decode(&[]).is_none());
    assert!(Message::decode(&[0x40]).is_none());
}

#[test]
fn request_builder_and_accessors() {
    let req = CoapRequest::new(RequestType::Post)
        .path("/sensors")
        .path("/temp")
        .query("unit=c")
        .content_format(ContentFormat::ApplicationJSON)
        .accept(ContentFormat::TextPlain)
        .confirmable(false)
        .payload(b"22.5")
        .build();
    assert_eq!(req.method(), RequestType::Post);
    assert_eq!(req.path(), "/sensors/temp");
    assert_eq!(req.queries(), Some(&vec!["unit=c".to_string()]));
    assert_eq!(req.content_format(), Some(ContentFormat::ApplicationJSON));
    assert!(!req.confirmable());
    assert_eq!(req.payload(), b"22.5");
    assert_eq!(req.payload_string(), Some("22.5"));

    let plain = CoapRequest::new(RequestType::Get).build();
    assert!(plain.confirmable());
    assert_eq!(plain.queries(), None);
    assert_eq!(plain.path(), "");
}

#[test]
fn request_message_roundtrip() {
    let req = CoapRequest::new(RequestType::Put)
        .path("/lights/1")
        .query("level=3")
        .content_format(ContentFormat::TextPlain)
        .payload(b"on")
        .build();
    let m = req.to_packet(vec![7, 7], 42);
    assert_eq!(m.message_type, MessageType::Confirmable);
    assert_eq!(m.code, MessageClass::Request(RequestType::Put));
    assert_eq!(m.message_id, 42);
    assert_eq!(m.option_values(OPTION_URI_PATH), vec![b"lights".to_vec(), b"1".to_vec()]);
    assert_eq!(m.option_values(OPTION_URI_QUERY), vec![b"level=3".to_vec()]);
    assert_eq!(m.option_values(OPTION_CONTENT_FORMAT), vec![Vec::<u8>::new()]);
    let back = CoapRequest::from_packet(&m).ok().unwrap();
    assert_eq!(back.method(), RequestType::Put);
    assert_eq!(back.path(), "/lights/1");
    assert_eq!(back.queries(), Some(&vec!["level=3".to_string()]));
    assert_eq!(back.content_format(), Some(ContentFormat::TextPlain));
    assert!(back.confirmable());
    assert_eq!(back.payload(), b"on");
}

#[test]
fn request_errors() {
    let m = message(MessageType::NonConfirmable, MessageClass::Response(ResponseType::Content), 1, vec![]);
    assert!(matches!(CoapRequest::from_packet(&m), Err(MessageError::NotARequest)));
    let mut bad = message(MessageType::NonConfirmable, MessageClass::Request(RequestType::Get), 1, vec![]);
    bad.options.push((OPTION_URI_PATH, vec![0xff, 0xfe]));
    assert!(matches!(CoapRequest::from_packet(&bad), Err(MessageError::InvalidOptionValue)));
    let mut badq = message(MessageType::NonConfirmable, MessageClass::Request(RequestType::Get), 1, vec![]);
    badq.options.push((OPTION_URI_QUERY, vec![0xc3]));
    assert!(matches!(CoapRequest::from_packet(&badq), Err(MessageError::InvalidOptionValue)));
}

#[test]
fn response_roundtrip_and_errors() {
    let resp = CoapResponseBuilder::new(ResponseType::Content, vec![5, 6])
        .content_format(ContentFormat::ApplicationJSON)
        .payload(b"{}")
        .build();
    let m = resp.to_packet(vec![5, 6], 9);
    assert_eq!(m.message_type, MessageType::NonConfirmable);
    assert_eq!(m.code, MessageClass::Response(ResponseType::Content));
    let back = CoapResponse::from_packet(&m).ok().unwrap();
    assert_eq!(back.status(), ResponseType::Content);
    assert_eq!(back.token(), &[5, 6]);
    assert_eq!(back.content_format(), Some(ContentFormat::ApplicationJSON));
    assert_eq!(back.payload(), b"{}");
    assert_eq!(back.payload_string(), Some("{}"));

    let req = message(MessageType::Confirmable, MessageClass::Request(RequestType::Get), 1, vec![]);
    assert!(matches!(CoapResponse::from_packet(&req), Err(MessageError::NotAResponse)));

    let empty = CoapResponse::new(ResponseType::NotFound).build();
    assert_eq!(empty.status(), ResponseType::NotFound);
    assert!(empty.token().is_empty());
    assert!(empty.payload().is_empty());
    assert_eq!(empty.content_format(), None);
}

#[test]
fn payload_string_rejects_invalid_utf8() {
    let resp = CoapResponseBuilder::new(ResponseType::Content, vec![]).payload(&[0xff]).build();
    assert_eq!(resp.payload_string(), None);
}

#[test]
fn split_and_join_paths() {
    assert_eq!(split_path("/sensors//temp/"), vec!["sensors".to_string(), "temp".to_string()]);
    assert_eq!(split_path(""), Vec::<String>::new());
    assert_eq!(split_path("///"), Vec::<String>::new());
    let segs = vec!["a".to_string(), "b".to_string()];
    assert_eq!(join_path(&segs), "/a/b");
    assert_eq!(split_path(&join_path(&segs)), segs);
    assert_eq!(join_path(&Vec::new()), "");
}

#[test]
fn normalize_paths() {
    assert_eq!(normalize_path("sensors/temp"), "/sensors/temp");
    assert_eq!(normalize_path("/sensors/temp/"), "/sensors/temp");
    assert_eq!(normalize_path("/"), "/");
    assert_eq!(normalize_path(""), "/");
    assert_eq!(normalize_path("a//"), "/a/");
    assert_eq!(normalize_path(&normalize_path("x/")), "/x");
}
