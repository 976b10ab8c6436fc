//! The CoAP message as the transport sees it, and its wire form. Decoding
//! and encoding are coap-lite's (`Packet::from_bytes`, `Packet::to_bytes`).

use vstd::prelude::*;
use crate::codes::{MessageType, MessageClass, message_type_bits, code_of_class, lemma_code_roundtrip};

verus! {

/// Option number of Uri-Path.
pub const OPTION_URI_PATH: u16 = 11;
/// Option number of Content-Format.
pub const OPTION_CONTENT_FORMAT: u16 = 12;
/// Option number of Uri-Query.
pub const OPTION_URI_QUERY: u16 = 15;
/// Option number of Accept.
pub const OPTION_ACCEPT: u16 = 17;

/// A message's fields as plain values: type number, code byte, message ID,
/// token, options (number and value, in order) and payload.
pub type MessageParts = (u8, u8, u16, Seq<u8>, Seq<(u16, Seq<u8>)>, Seq<u8>);

/// The options with each value taken by its view.
pub open spec fn options_view(o: Seq<(u16, Vec<u8>)>) -> Seq<(u16, Seq<u8>)> {
    o.map_values(|p: (u16, Vec<u8>)| (p.0, p.1@))
}

/// What coap-lite's `Packet::from_bytes` reads from `bytes`, as message parts
/// (options in ascending number, values of one number in arrival order);
/// `None` where it returns an error.
pub uninterp spec fn coap_decode(bytes: Seq<u8>) -> Option<MessageParts>;

/// What coap-lite's `Packet::to_bytes` writes for a packet built from the
/// given parts; `None` where it returns an error.
pub uninterp spec fn coap_encode(parts: MessageParts) -> Option<Seq<u8>>;

/// Calls `coap_lite::Packet::from_bytes` and hands out the packet's fields.
/// States that the result is `coap_decode` of the bytes and, as the source
/// shows, that a decoded packet had a 4-byte header read as `header_read`
/// describes, followed by a token of at most 8 bytes. Which option layouts
/// it accepts is not stated.
#[verifier::external_body]
fn coap_lite_decode(bytes: &[u8]) -> (r: Option<(u8, u8, u16, Vec<u8>, Vec<(u16, Vec<u8>)>, Vec<u8>)>)
    ensures
        r is Some <==> coap_decode(bytes@) is Some,
        r matches Some(p) ==> coap_decode(bytes@) == Some(
            (p.0, p.1, p.2, p.3@, options_view(p.4@), p.5@),
        ),
        r matches Some(p) ==> p.0 < 4 && p.3@.len() <= 8,
        r matches Some(p) ==> header_read(bytes@, (p.0, p.1, p.2, p.3@, options_view(p.4@), p.5@)),
{
    let p = coap_lite::Packet::from_bytes(bytes).ok()?;
    let t: u8 = match p.header.get_type() {
        coap_lite::MessageType::Confirmable => 0,
        coap_lite::MessageType::NonConfirmable => 1,
        coap_lite::MessageType::Acknowledgement => 2,
        coap_lite::MessageType::Reset => 3,
    };
    let opts: Vec<(u16, Vec<u8>)> = p.options().flat_map(|(n, vs)| vs.iter().map(move |v| (*n, v.clone()))).collect();
    Some((t, u8::from(p.header.code), p.header.message_id, p.get_token().to_vec(), opts, p.payload.clone()))
}

/// Builds a `coap_lite::Packet` from the parts (type, code via
/// `MessageClass::from`, message ID, token, each option by `add_option`,
/// payload) and calls `Packet::to_bytes`. States that the result is
/// `coap_encode` of the parts and, as the source shows, that written bytes
/// begin with the header (version 1, the type, the token length; the code;
/// the message ID big-endian) followed by the token. When the packet is too
/// large to be written is not stated.
#[verifier::external_body]
fn coap_lite_encode(
    type_bits: u8,
    code: u8,
    message_id: u16,
    token: &[u8],
    options: &[(u16, Vec<u8>)],
    payload: &[u8],
) -> (r: Option<Vec<u8>>)
    requires
        type_bits < 4,
        token@.len() <= 15,
    ensures
        r is Some <==> coap_encode((type_bits, code, message_id, token@, options_view(options@), payload@)) is Some,
        r matches Some(b) ==> coap_encode((type_bits, code, message_id, token@, options_view(options@), payload@)) == Some(b@),
        r matches Some(b) ==> {
            &&& b@.len() >= 4 + token@.len()
            &&& b@[0] == 0x40 + type_bits * 16 + token@.len()
            &&& b@[1] == code
            &&& b@[2] as int * 256 + b@[3] as int == message_id
            &&& b@.subrange(4, 4 + token@.len() as int) == token@
        },
{
    let mut p = coap_lite::Packet::new();
    p.header.set_type(match type_bits {
        0 => coap_lite::MessageType::Confirmable,
        1 => coap_lite::MessageType::NonConfirmable,
        2 => coap_lite::MessageType::Acknowledgement,
        _ => coap_lite::MessageType::Reset,
    });
    p.header.code = coap_lite::MessageClass::from(code);
    p.header.message_id = message_id;
    p.set_token(token.to_vec());
    for (n, v) in options { p.add_option(coap_lite::CoapOption::from(*n), v.clone()); }
    p.payload = payload.to_vec();
    p.to_bytes().ok()
}

/// The header and token of `b` are read as the parts `p` say: the type is
/// bits 4-5 of the first byte, the token length its low four bits, the code
/// the second byte, the message ID the next two (big-endian), and the token
/// follows the header.
pub open spec fn header_read(b: Seq<u8>, p: MessageParts) -> bool {
    &&& b.len() >= 4 + b[0] % 16
    &&& p.0 == (b[0] / 16) % 4
    &&& p.1 == b[1]
    &&& p.2 == b[2] as int * 256 + b[3] as int
    &&& p.3 == b.subrange(4, 4 + b[0] % 16)
}

/// `b` begins with the header of a message with these parts (version 1,
/// type, token length; code; message ID big-endian) followed by its token.
pub open spec fn header_written(b: Seq<u8>, p: MessageParts) -> bool {
    &&& b.len() >= 4 + p.3.len()
    &&& b[0] == 0x40 + p.0 * 16 + p.3.len()
    &&& b[1] == p.1
    &&& b[2] as int * 256 + b[3] as int == p.2
    &&& b.subrange(4, 4 + p.3.len() as int) == p.3
}

/// A CoAP message: header fields, token, options and payload.
pub struct Message {
    pub message_type: MessageType,
    pub code: MessageClass,
    pub message_id: u16,
    pub token: Vec<u8>,
    /// Options in order: number and value.
    pub options: Vec<(u16, Vec<u8>)>,
    pub payload: Vec<u8>,
}

/// The plain fields of a message.
pub open spec fn message_parts(m: Message) -> MessageParts {
    (
        message_type_bits(m.message_type),
        code_of_class(m.code),
        m.message_id,
        m.token@,
        options_view(m.options@),
        m.payload@,
    )
}

impl Message {
    /// Decodes a datagram. `None` exactly when coap-lite rejects the bytes;
    /// otherwise the message's parts are what coap-lite read.
    pub fn decode(bytes: &[u8]) -> (r: Option<Message>)
        ensures
            r is Some <==> coap_decode(bytes@) is Some,
            r matches Some(m) ==> coap_decode(bytes@) == Some(message_parts(m)),
            r matches Some(m) ==> m.token@.len() <= 8,
            r matches Some(m) ==> header_read(bytes@, message_parts(m)),
    {
        match coap_lite_decode(bytes) {
            Some((t, c, mid, token, options, payload)) => {
                let m = Message {
                    message_type: MessageType::from_bits(t),
                    code: MessageClass::from_code(c),
                    message_id: mid,
                    token,
                    options,
                    payload,
                };
                proof {
                    lemma_code_roundtrip(c);
                }
                Some(m)
            },
            None => None,
        }
    }

    /// Encodes the message. The result is coap-lite's encoding of the
    /// message's parts.
    pub fn encode(&self) -> (r: Option<Vec<u8>>)
        requires
            self.token@.len() <= 15,
        ensures
            r is Some <==> coap_encode(message_parts(*self)) is Some,
            r matches Some(b) ==> coap_encode(message_parts(*self)) == Some(b@),
            r matches Some(b) ==> header_written(b@, message_parts(*self)),
    {
        coap_lite_encode(
            self.message_type.bits(),
            self.code.code(),
            self.message_id,
            self.token.as_slice(),
            self.options.as_slice(),
            self.payload.as_slice(),
        )
    }

    /// The values of every option numbered `number`, in order.
    pub fn option_values(&self, number: u16) -> (r: Vec<Vec<u8>>)
        ensures
            r@.map_values(|v: Vec<u8>| v@) == option_values_of(options_view(self.options@), number),
    {
        let mut r: Vec<Vec<u8>> = Vec::new();
        let mut i: usize = 0;
        while i < self.options.len()
            invariant
                i <= self.options@.len(),
                r@.map_values(|v: Vec<u8>| v@) == option_values_of(options_view(self.options@).take(i as int), number),
            decreases self.options@.len() - i,
        {
            let ghost before = options_view(self.options@).take(i as int);
            let ghost after = options_view(self.options@).take(i + 1);
            assert(after =~= before.push(options_view(self.options@)[i as int]));
            assert(after.drop_last() =~= before);
            assert(after.last() == options_view(self.options@)[i as int]);
            let ghost rv = r@.map_values(|v: Vec<u8>| v@);
            if self.options[i].0 == number {
                let v = self.options[i].1.clone();
                assert(v@ =~= self.options@[i as int].1@);
                r.push(v);
                assert(r@.map_values(|v: Vec<u8>| v@) =~= rv.push(v@));
            }
            i = i + 1;
            assert(r@.map_values(|v: Vec<u8>| v@) =~= option_values_of(options_view(self.options@).take(i as int), number));
        }
        assert(options_view(self.options@).take(self.options@.len() as int) =~= options_view(self.options@));
        r
    }
}

/// The values of the options numbered `number`, in order.
pub open spec fn option_values_of(o: Seq<(u16, Seq<u8>)>, number: u16) -> Seq<Seq<u8>>
    decreases o.len(),
{
    if o.len() == 0 {
        Seq::empty()
    } else if o.last().0 == number {
        option_values_of(o.drop_last(), number).push(o.last().1)
    } else {
        option_values_of(o.drop_last(), number)
    }
}

} // verus!
