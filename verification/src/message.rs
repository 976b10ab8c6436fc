//! CoAP requests and responses as the library's users see them, their
//! builders, and their conversion to and from the transport's `Message`.

use vstd::prelude::*;
use crate::codes::{
    ContentFormat, MessageClass, MessageType, RequestType, ResponseType, content_format_number,
    content_format_of_number, lemma_content_format_roundtrip,
};
use crate::path::{join_path, joined_path, path_segments, split_path};
use crate::wire::{
    Message, OPTION_ACCEPT, OPTION_CONTENT_FORMAT, OPTION_URI_PATH, OPTION_URI_QUERY,
    option_values_of, options_view,
};

verus! {

/// Errors in reading a message as a request or a response.
#[derive(Debug, Clone, Copy, PartialEq, Eq, Structural)]
pub enum MessageError {
    /// The packet is not a response.
    NotAResponse,
    /// The packet is not a request.
    NotARequest,
    /// A Uri-Path or Uri-Query value is not UTF-8.
    InvalidOptionValue,
}

/// The CoAP encoding of an unsigned option value of at most two bytes:
/// big-endian without leading zero bytes (RFC 7252 §3.2).
pub open spec fn uint_option_bytes(v: u16) -> Seq<u8> {
    if v == 0 {
        Seq::empty()
    } else if v < 256 {
        seq![v as u8]
    } else {
        seq![(v / 256) as u8, (v % 256) as u8]
    }
}

/// The value of an unsigned option of at most two bytes; `None` when it is
/// longer.
pub open spec fn uint_option_value(b: Seq<u8>) -> Option<u16> {
    if b.len() == 0 {
        Some(0)
    } else if b.len() == 1 {
        Some(b[0] as u16)
    } else if b.len() == 2 {
        Some((b[0] as int * 256 + b[1] as int) as u16)
    } else {
        None
    }
}

/// An encoded value decodes to itself.
pub proof fn lemma_uint_option_roundtrip(v: u16)
    ensures
        uint_option_value(uint_option_bytes(v)) == Some(v),
{
}

/// Encodes a content format number as an option value.
pub fn encode_uint_option(v: u16) -> (r: Vec<u8>)
    ensures
        r@ == uint_option_bytes(v),
{
    let mut r: Vec<u8> = Vec::new();
    if v == 0 {
    } else if v < 256 {
        r.push(v as u8);
    } else {
        r.push((v / 256) as u8);
        r.push((v % 256) as u8);
    }
    assert(r@ =~= uint_option_bytes(v));
    r
}

/// Decodes an option value of at most two bytes.
pub fn decode_uint_option(b: &[u8]) -> (r: Option<u16>)
    ensures
        r == uint_option_value(b@),
{
    if b.len() == 0 {
        Some(0)
    } else if b.len() == 1 {
        Some(b[0] as u16)
    } else if b.len() == 2 {
        Some(b[0] as u16 * 256 + b[1] as u16)
    } else {
        None
    }
}

/// The content format named by the first option numbered `number`: decoded
/// as an unsigned value and looked up in the registry.
pub open spec fn format_option(o: Seq<(u16, Seq<u8>)>, number: u16) -> Option<ContentFormat> {
    let vals = option_values_of(o, number);
    if vals.len() == 0 {
        None
    } else {
        match uint_option_value(vals[0]) {
            Some(n) => content_format_of_number(n),
            None => None,
        }
    }
}

/// Reads the content format carried by option `number` of a message.
fn read_format_option(m: &Message, number: u16) -> (r: Option<ContentFormat>)
    ensures
        r == format_option(options_view(m.options@), number),
{
    let vals = m.option_values(number);
    if vals.len() == 0 {
        return None;
    }
    assert(vals@.map_values(|v: Vec<u8>| v@)[0] == vals@[0]@);
    match decode_uint_option(vals[0].as_slice()) {
        Some(n) => ContentFormat::from_number(n),
        None => None,
    }
}

/// Calls `std::str::from_utf8`, which std documents to return the string
/// exactly when the bytes are valid UTF-8. vstd's `valid_utf8` and
/// `decode_utf8` state UTF-8 validity and decoding.
#[verifier::external_body]
fn utf8_str(bytes: &[u8]) -> (r: Option<&str>)
    ensures
        r is Some <==> vstd::utf8::valid_utf8(bytes@),
        r matches Some(s) ==> s@ == vstd::utf8::decode_utf8(bytes@),
{
    std::str::from_utf8(bytes).ok()
}

/// Copies a byte slice into a vector.
pub fn copy_bytes(s: &[u8]) -> (r: Vec<u8>)
    ensures
        r@ == s@,
{
    let mut r: Vec<u8> = Vec::new();
    let mut i: usize = 0;
    while i < s.len()
        invariant
            i <= s@.len(),
            r@ == s@.take(i as int),
        decreases s@.len() - i,
    {
        r.push(s[i]);
        i = i + 1;
        assert(r@ =~= s@.take(i as int));
    }
    assert(s@.take(s@.len() as int) =~= s@);
    r
}

/// The strings whose UTF-8 encodings are the given values, when all are
/// valid UTF-8.
pub open spec fn decode_all_utf8(vals: Seq<Seq<u8>>) -> Option<Seq<Seq<char>>> {
    if forall|i: int| 0 <= i < vals.len() ==> vstd::utf8::valid_utf8(#[trigger] vals[i]) {
        Some(vals.map_values(|v: Seq<u8>| vstd::utf8::decode_utf8(v)))
    } else {
        None
    }
}

/// Decodes each value as UTF-8.
fn decode_strings(vals: &Vec<Vec<u8>>) -> (r: Option<Vec<String>>)
    ensures
        r matches Some(v) ==> decode_all_utf8(vals@.map_values(|b: Vec<u8>| b@)) == Some(v@.map_values(|s: String| s@)),
        r is None ==> decode_all_utf8(vals@.map_values(|b: Vec<u8>| b@)) is None,
{
    let ghost bv = vals@.map_values(|b: Vec<u8>| b@);
    let mut out: Vec<String> = Vec::new();
    let mut i: usize = 0;
    while i < vals.len()
        invariant
            i <= vals@.len(),
            bv == vals@.map_values(|b: Vec<u8>| b@),
            out@.len() == i,
            forall|j: int| 0 <= j < i ==> vstd::utf8::valid_utf8(#[trigger] bv[j]),
            forall|j: int| 0 <= j < i ==> (#[trigger] out@[j])@ == vstd::utf8::decode_utf8(bv[j]),
        decreases vals@.len() - i,
    {
        match utf8_str(vals[i].as_slice()) {
            Some(s) => {
                out.push(s.to_owned());
            },
            None => {
                assert(!vstd::utf8::valid_utf8(bv[i as int]));
                return None;
            },
        }
        i = i + 1;
    }
    assert(out@.map_values(|s: String| s@) =~= bv.map_values(|v: Seq<u8>| vstd::utf8::decode_utf8(v)));
    Some(out)
}

/// The UTF-8 encodings of the strings.
pub open spec fn encode_all_utf8(strs: Seq<Seq<char>>) -> Seq<Seq<u8>> {
    strs.map_values(|s: Seq<char>| vstd::utf8::encode_utf8(s))
}

/// Appends one option per string, numbered `number`, holding the string's
/// UTF-8 bytes.
fn push_string_options(opts: &mut Vec<(u16, Vec<u8>)>, number: u16, strs: &Vec<String>)
    ensures
        options_view(final(opts)@) == options_view(old(opts)@) + encode_all_utf8(strs@.map_values(|s: String| s@)).map_values(|b: Seq<u8>| (number, b)),
{
    let ghost start = options_view(opts@);
    let ghost target = encode_all_utf8(strs@.map_values(|s: String| s@)).map_values(|b: Seq<u8>| (number, b));
    let mut i: usize = 0;
    while i < strs.len()
        invariant
            i <= strs@.len(),
            target == encode_all_utf8(strs@.map_values(|s: String| s@)).map_values(|b: Seq<u8>| (number, b)),
            options_view(opts@) == start + target.take(i as int),
        decreases strs@.len() - i,
    {
        let ghost before = options_view(opts@);
        let bytes = copy_bytes(strs[i].as_str().as_bytes());
        opts.push((number, bytes));
        assert(options_view(opts@) =~= before.push((number, bytes@)));
        assert(target.take(i + 1) =~= target.take(i as int).push(target[i as int]));
        i = i + 1;
    }
    assert(target.take(strs@.len() as int) =~= target);
}

/// A CoAP request as the application builds or receives it.
pub struct CoapRequest {
    pub method: RequestType,
    /// The URI path, e.g. "/sensors/temp".
    pub path: String,
    /// Uri-Query values such as "key=value", in order.
    pub queries: Vec<String>,
    pub content_format: Option<ContentFormat>,
    pub accept: Option<ContentFormat>,
    /// Whether the request is sent as a confirmable message.
    pub confirmable: bool,
    pub payload: Vec<u8>,
}

/// Builds a CoAP request with a fluent API.
pub struct CoapRequestBuilder {
    pub method: RequestType,
    pub path: String,
    pub queries: Vec<String>,
    pub content_format: Option<ContentFormat>,
    pub accept: Option<ContentFormat>,
    pub confirmable: bool,
    pub payload: Vec<u8>,
}

impl CoapRequestBuilder {
    /// A builder for a confirmable request with the given method, an empty
    /// path, no queries, no content format and an empty payload.
    pub fn new(method: RequestType) -> (r: Self)
        ensures
            r.method == method,
            r.path@ == Seq::<char>::empty(),
            r.queries@.len() == 0,
            r.content_format is None,
            r.accept is None,
            r.confirmable,
            r.payload@.len() == 0,
    {
        CoapRequestBuilder {
            method,
            path: String::new(),
            queries: Vec::new(),
            content_format: None,
            accept: None,
            confirmable: true,
            payload: Vec::new(),
        }
    }

    /// Appends `path` to the path.
    pub fn path(self, path: &str) -> (r: Self)
        ensures
            r == (CoapRequestBuilder { path: r.path, ..self }),
            r.path@ == self.path@ + path@,
    {
        let mut b = self;
        crate::path::push_str(&mut b.path, path);
        b
    }

    /// Adds a Uri-Query value.
    pub fn query(self, query: &str) -> (r: Self)
        ensures
            r == (CoapRequestBuilder { queries: r.queries, ..self }),
            r.queries@.map_values(|s: String| s@) == self.queries@.map_values(|s: String| s@).push(query@),
    {
        let mut b = self;
        let ghost before = b.queries@.map_values(|s: String| s@);
        b.queries.push(query.to_owned());
        assert(b.queries@.map_values(|s: String| s@) =~= before.push(query@));
        b
    }

    /// Sets the Content-Format option.
    pub fn content_format(self, content_format: ContentFormat) -> (r: Self)
        ensures
            r == (CoapRequestBuilder { content_format: Some(content_format), ..self }),
    {
        CoapRequestBuilder { content_format: Some(content_format), ..self }
    }

    /// Sets the Accept option.
    pub fn accept(self, accept: ContentFormat) -> (r: Self)
        ensures
            r == (CoapRequestBuilder { accept: Some(accept), ..self }),
    {
        CoapRequestBuilder { accept: Some(accept), ..self }
    }

    /// Sets whether the request is confirmable.
    pub fn confirmable(self, confirmable: bool) -> (r: Self)
        ensures
            r == (CoapRequestBuilder { confirmable, ..self }),
    {
        CoapRequestBuilder { confirmable, ..self }
    }

    /// Sets the payload.
    pub fn payload(self, payload: &[u8]) -> (r: Self)
        ensures
            r == (CoapRequestBuilder { payload: r.payload, ..self }),
            r.payload@ == payload@,
    {
        CoapRequestBuilder { payload: copy_bytes(payload), ..self }
    }

    /// The request with the builder's fields.
    pub fn build(self) -> (r: CoapRequest)
        ensures
            r == (CoapRequest {
                method: self.method,
                path: self.path,
                queries: self.queries,
                content_format: self.content_format,
                accept: self.accept,
                confirmable: self.confirmable,
                payload: self.payload,
            }),
    {
        CoapRequest {
            method: self.method,
            path: self.path,
            queries: self.queries,
            content_format: self.content_format,
            accept: self.accept,
            confirmable: self.confirmable,
            payload: self.payload,
        }
    }
}

/// The options of a request's wire form: one Uri-Path per path segment,
/// Content-Format, one Uri-Query per query, Accept; in ascending number.
pub open spec fn request_options(r: CoapRequest) -> Seq<(u16, Seq<u8>)> {
    encode_all_utf8(path_segments(r.path@)).map_values(|b: Seq<u8>| (OPTION_URI_PATH, b))
        + (match r.content_format {
        Some(f) => seq![(OPTION_CONTENT_FORMAT, uint_option_bytes(content_format_number(f)))],
        None => Seq::empty(),
    }) + encode_all_utf8(r.queries@.map_values(|s: String| s@)).map_values(|b: Seq<u8>| (OPTION_URI_QUERY, b))
        + (match r.accept {
        Some(f) => seq![(OPTION_ACCEPT, uint_option_bytes(content_format_number(f)))],
        None => Seq::empty(),
    })
}

/// Appends a content format option, if any.
fn push_format_option(opts: &mut Vec<(u16, Vec<u8>)>, number: u16, f: Option<ContentFormat>)
    ensures
        options_view(final(opts)@) == options_view(old(opts)@) + match f {
            Some(f) => seq![(number, uint_option_bytes(content_format_number(f)))],
            None => Seq::empty(),
        },
{
    let ghost before = options_view(opts@);
    match f {
        Some(f) => {
            let v = encode_uint_option(f.number());
            opts.push((number, v));
            assert(options_view(opts@) =~= before + seq![(number, uint_option_bytes(content_format_number(f)))]);
        },
        None => {
            assert(options_view(opts@) =~= before + Seq::empty());
        },
    }
}

impl CoapRequest {
    /// A builder for a request with this method.
    pub fn new(method: RequestType) -> (r: CoapRequestBuilder)
        ensures
            r.method == method,
            r.path@ == Seq::<char>::empty(),
            r.queries@.len() == 0,
            r.content_format is None,
            r.accept is None,
            r.confirmable,
            r.payload@.len() == 0,
    {
        CoapRequestBuilder::new(method)
    }

    /// The request method.
    pub fn method(&self) -> (r: RequestType)
        ensures
            r == self.method,
    {
        self.method
    }

    /// The URI path.
    pub fn path(&self) -> (r: &str)
        ensures
            r@ == self.path@,
    {
        self.path.as_str()
    }

    /// The Uri-Query values; `None` when there are none.
    pub fn queries(&self) -> (r: Option<&Vec<String>>)
        ensures
            self.queries@.len() == 0 ==> r is None,
            self.queries@.len() > 0 ==> r == Some(&self.queries),
    {
        if self.queries.len() == 0 {
            None
        } else {
            Some(&self.queries)
        }
    }

    /// The payload.
    pub fn payload(&self) -> (r: &[u8])
        ensures
            r@ == self.payload@,
    {
        self.payload.as_slice()
    }

    /// The payload as a string, if it is valid UTF-8.
    pub fn payload_string(&self) -> (r: Option<&str>)
        ensures
            r is Some <==> vstd::utf8::valid_utf8(self.payload@),
            r matches Some(s) ==> s@ == vstd::utf8::decode_utf8(self.payload@),
    {
        utf8_str(self.payload.as_slice())
    }

    /// The Content-Format, if present.
    pub fn content_format(&self) -> (r: Option<ContentFormat>)
        ensures
            r == self.content_format,
    {
        self.content_format
    }

    /// Whether the request is confirmable.
    pub fn confirmable(&self) -> (r: bool)
        ensures
            r == self.confirmable,
    {
        self.confirmable
    }

    /// The request as a message with the given token and message ID:
    /// confirmable or not as the request says, its method as code, the
    /// options of `request_options`, and its payload.
    pub fn to_packet(&self, token: Vec<u8>, message_id: u16) -> (m: Message)
        ensures
            m.message_type == (if self.confirmable { MessageType::Confirmable } else { MessageType::NonConfirmable }),
            m.code == MessageClass::Request(self.method),
            m.message_id == message_id,
            m.token@ == token@,
            options_view(m.options@) == request_options(*self),
            m.payload@ == self.payload@,
    {
        let mut options: Vec<(u16, Vec<u8>)> = Vec::new();
        let segs = split_path(self.path.as_str());
        assert(options_view(options@) =~= Seq::empty());
        push_string_options(&mut options, OPTION_URI_PATH, &segs);
        push_format_option(&mut options, OPTION_CONTENT_FORMAT, self.content_format);
        push_string_options(&mut options, OPTION_URI_QUERY, &self.queries);
        push_format_option(&mut options, OPTION_ACCEPT, self.accept);
        proof {
            assert(options_view(options@) =~= request_options(*self));
        }
        Message {
            message_type: if self.confirmable { MessageType::Confirmable } else { MessageType::NonConfirmable },
            code: MessageClass::Request(self.method),
            message_id,
            token,
            options,
            payload: copy_bytes(self.payload.as_slice()),
        }
    }

    /// Reads a message as a request: its method, the path joined from its
    /// Uri-Path values, its Uri-Query values, its Content-Format and Accept,
    /// whether it is confirmable, and its payload. Fails with `NotARequest`
    /// when the code is not a request code, and with `InvalidOptionValue`
    /// when a Uri-Path or Uri-Query value is not UTF-8.
    pub fn from_packet(m: &Message) -> (r: Result<CoapRequest, MessageError>)
        ensures
            !(m.code is Request) ==> r == Err::<CoapRequest, MessageError>(MessageError::NotARequest),
            m.code is Request ==> (r is Ok <==> request_decodable(*m)),
            m.code is Request ==> match r {
                Ok(req) => request_read_from(*m, req),
                Err(e) => e == MessageError::InvalidOptionValue,
            },
    {
        let method = match m.code {
            MessageClass::Request(method) => method,
            _ => {
                return Err(MessageError::NotARequest);
            },
        };
        let path_vals = m.option_values(OPTION_URI_PATH);
        let segs = match decode_strings(&path_vals) {
            Some(s) => s,
            None => {
                return Err(MessageError::InvalidOptionValue);
            },
        };
        let query_vals = m.option_values(OPTION_URI_QUERY);
        let queries = match decode_strings(&query_vals) {
            Some(q) => q,
            None => {
                return Err(MessageError::InvalidOptionValue);
            },
        };
        Ok(CoapRequest {
            method,
            path: join_path(&segs),
            queries,
            content_format: read_format_option(m, OPTION_CONTENT_FORMAT),
            accept: read_format_option(m, OPTION_ACCEPT),
            confirmable: m.message_type == MessageType::Confirmable,
            payload: copy_bytes(m.payload.as_slice()),
        })
    }
}

/// Whether the Uri-Path and Uri-Query values of a message are all UTF-8.
pub open spec fn request_decodable(m: Message) -> bool {
    let o = options_view(m.options@);
    &&& decode_all_utf8(option_values_of(o, OPTION_URI_PATH)) is Some
    &&& decode_all_utf8(option_values_of(o, OPTION_URI_QUERY)) is Some
}

/// `req` is what the request message `m` says: its method, the path joined
/// from its Uri-Path values, its Uri-Query values, its Content-Format and
/// Accept, whether it is confirmable, and its payload.
pub open spec fn request_read_from(m: Message, req: CoapRequest) -> bool {
    let o = options_view(m.options@);
    &&& m.code is Request
    &&& req.method == m.code->Request_0
    &&& req.path@ == joined_path(decode_all_utf8(option_values_of(o, OPTION_URI_PATH)).unwrap())
    &&& req.queries@.map_values(|s: String| s@) == decode_all_utf8(option_values_of(o, OPTION_URI_QUERY)).unwrap()
    &&& req.content_format == format_option(o, OPTION_CONTENT_FORMAT)
    &&& req.accept == format_option(o, OPTION_ACCEPT)
    &&& req.confirmable == (m.message_type == MessageType::Confirmable)
    &&& req.payload@ == m.payload@
}

/// `resp` is what the response message `m` says: its code, token,
/// Content-Format and payload.
pub open spec fn response_read_from(m: Message, resp: CoapResponse) -> bool {
    &&& m.code is Response
    &&& resp.response_type == m.code->Response_0
    &&& resp.token@ == m.token@
    &&& resp.content_format == format_option(options_view(m.options@), OPTION_CONTENT_FORMAT)
    &&& resp.payload@ == m.payload@
}

/// A CoAP response.
pub struct CoapResponse {
    pub response_type: ResponseType,
    pub token: Vec<u8>,
    pub content_format: Option<ContentFormat>,
    pub payload: Vec<u8>,
}

/// Builds a CoAP response with a fluent API.
pub struct CoapResponseBuilder {
    pub response_type: ResponseType,
    pub token: Vec<u8>,
    pub content_format: Option<ContentFormat>,
    pub payload: Vec<u8>,
}

impl CoapResponseBuilder {
    /// A builder for a response with the given code and token, no content
    /// format and an empty payload.
    pub fn new(response_type: ResponseType, token: Vec<u8>) -> (r: Self)
        ensures
            r.response_type == response_type,
            r.token == token,
            r.content_format is None,
            r.payload@.len() == 0,
    {
        CoapResponseBuilder { response_type, token, content_format: None, payload: Vec::new() }
    }

    /// Sets the Content-Format option.
    pub fn content_format(self, content_format: ContentFormat) -> (r: Self)
        ensures
            r == (CoapResponseBuilder { content_format: Some(content_format), ..self }),
    {
        CoapResponseBuilder { content_format: Some(content_format), ..self }
    }

    /// Sets the payload.
    pub fn payload(self, payload: &[u8]) -> (r: Self)
        ensures
            r == (CoapResponseBuilder { payload: r.payload, ..self }),
            r.payload@ == payload@,
    {
        CoapResponseBuilder { payload: copy_bytes(payload), ..self }
    }

    /// The response with the builder's fields.
    pub fn build(self) -> (r: CoapResponse)
        ensures
            r == (CoapResponse {
                response_type: self.response_type,
                token: self.token,
                content_format: self.content_format,
                payload: self.payload,
            }),
    {
        CoapResponse {
            response_type: self.response_type,
            token: self.token,
            content_format: self.content_format,
            payload: self.payload,
        }
    }
}

/// The options of a response's wire form: its Content-Format, if any.
pub open spec fn response_options(r: CoapResponse) -> Seq<(u16, Seq<u8>)> {
    match r.content_format {
        Some(f) => seq![(OPTION_CONTENT_FORMAT, uint_option_bytes(content_format_number(f)))],
        None => Seq::empty(),
    }
}

impl CoapResponse {
    /// A builder for a response with this code and an empty token; the
    /// transport sets the token of the request it answers.
    pub fn new(response_type: ResponseType) -> (r: CoapResponseBuilder)
        ensures
            r.response_type == response_type,
            r.token@.len() == 0,
            r.content_format is None,
            r.payload@.len() == 0,
    {
        CoapResponseBuilder::new(response_type, Vec::new())
    }

    /// Reads a message as a response: its code, token, Content-Format and
    /// payload. Fails with `NotAResponse` when the code is not a response
    /// code.
    pub fn from_packet(m: &Message) -> (r: Result<CoapResponse, MessageError>)
        ensures
            !(m.code is Response) ==> r == Err::<CoapResponse, MessageError>(MessageError::NotAResponse),
            m.code is Response ==> (r matches Ok(resp) && response_read_from(*m, resp)),
    {
        match m.code {
            MessageClass::Response(response_type) => Ok(CoapResponse {
                response_type,
                token: copy_bytes(m.token.as_slice()),
                content_format: read_format_option(m, OPTION_CONTENT_FORMAT),
                payload: copy_bytes(m.payload.as_slice()),
            }),
            _ => Err(MessageError::NotAResponse),
        }
    }

    /// The response as a non-confirmable message with the given token and
    /// message ID, its code, its Content-Format option and its payload.
    pub fn to_packet(&self, token: Vec<u8>, message_id: u16) -> (m: Message)
        ensures
            m.message_type == MessageType::NonConfirmable,
            m.code == MessageClass::Response(self.response_type),
            m.message_id == message_id,
            m.token@ == token@,
            options_view(m.options@) == response_options(*self),
            m.payload@ == self.payload@,
    {
        let mut options: Vec<(u16, Vec<u8>)> = Vec::new();
        assert(options_view(options@) =~= Seq::empty());
        push_format_option(&mut options, OPTION_CONTENT_FORMAT, self.content_format);
        assert(options_view(options@) =~= response_options(*self));
        Message {
            message_type: MessageType::NonConfirmable,
            code: MessageClass::Response(self.response_type),
            message_id,
            token,
            options,
            payload: copy_bytes(self.payload.as_slice()),
        }
    }

    /// The response code.
    pub fn status(&self) -> (r: ResponseType)
        ensures
            r == self.response_type,
    {
        self.response_type
    }

    /// The token of the exchange.
    pub fn token(&self) -> (r: &[u8])
        ensures
            r@ == self.token@,
    {
        self.token.as_slice()
    }

    /// The payload.
    pub fn payload(&self) -> (r: &[u8])
        ensures
            r@ == self.payload@,
    {
        self.payload.as_slice()
    }

    /// The payload as a string, if it is valid UTF-8.
    pub fn payload_string(&self) -> (r: Option<&str>)
        ensures
            r is Some <==> vstd::utf8::valid_utf8(self.payload@),
            r matches Some(s) ==> s@ == vstd::utf8::decode_utf8(self.payload@),
    {
        utf8_str(self.payload.as_slice())
    }

    /// The Content-Format, if present.
    pub fn content_format(&self) -> (r: Option<ContentFormat>)
        ensures
            r == self.content_format,
    {
        self.content_format
    }
}

/// The values of option `n` in two lists one after the other are the values
/// in the first, then those in the second.
proof fn lemma_option_values_concat(a: Seq<(u16, Seq<u8>)>, b: Seq<(u16, Seq<u8>)>, n: u16)
    ensures
        option_values_of(a + b, n) == option_values_of(a, n) + option_values_of(b, n),
    decreases b.len(),
{
    if b.len() == 0 {
        assert(a + b =~= a);
        assert(option_values_of(a, n) + option_values_of(b, n) =~= option_values_of(a, n));
    } else {
        lemma_option_values_concat(a, b.drop_last(), n);
        assert((a + b).drop_last() =~= a + b.drop_last());
        assert((a + b).last() == b.last());
        if b.last().0 == n {
            assert(option_values_of(a, n) + option_values_of(b.drop_last(), n).push(b.last().1)
                =~= (option_values_of(a, n) + option_values_of(b.drop_last(), n)).push(b.last().1));
        }
    }
}

/// Options that all have number `m` hold values of `n` only when `m` is `n`,
/// and then all of them.
proof fn lemma_option_values_uniform(xs: Seq<Seq<u8>>, m: u16, n: u16)
    ensures
        option_values_of(xs.map_values(|b: Seq<u8>| (m, b)), n) == (if m == n { xs } else { Seq::<Seq<u8>>::empty() }),
    decreases xs.len(),
{
    let o = xs.map_values(|b: Seq<u8>| (m, b));
    if xs.len() == 0 {
        assert(o =~= Seq::<(u16, Seq<u8>)>::empty());
        if m == n {
            assert(xs =~= Seq::<Seq<u8>>::empty());
        }
    } else {
        lemma_option_values_uniform(xs.drop_last(), m, n);
        assert(o.drop_last() =~= xs.drop_last().map_values(|b: Seq<u8>| (m, b)));
        assert(o.last() == (m, xs.last()));
        if m == n {
            assert(xs.drop_last().push(xs.last()) =~= xs);
        }
    }
}

/// Strings encoded as UTF-8 decode back to themselves.
proof fn lemma_utf8_roundtrip_all(strs: Seq<Seq<char>>)
    ensures
        decode_all_utf8(encode_all_utf8(strs)) == Some(strs),
{
    broadcast use vstd::utf8::encode_utf8_valid_utf8, vstd::utf8::encode_utf8_decode_utf8;
    let e = encode_all_utf8(strs);
    assert forall|i: int| 0 <= i < e.len() implies vstd::utf8::valid_utf8(#[trigger] e[i]) by {
        assert(e[i] == vstd::utf8::encode_utf8(strs[i]));
    }
    let d = e.map_values(|v: Seq<u8>| vstd::utf8::decode_utf8(v));
    assert forall|i: int| 0 <= i < strs.len() implies #[trigger] d[i] == strs[i] by {
        assert(e[i] == vstd::utf8::encode_utf8(strs[i]));
    }
    assert(d =~= strs);
}

/// The option values of a single optional content format option.
proof fn lemma_format_values(f: Option<ContentFormat>, m: u16, n: u16)
    ensures
        option_values_of(match f {
            Some(f) => seq![(m, uint_option_bytes(content_format_number(f)))],
            None => Seq::empty(),
        }, n) == (if m == n && f is Some { seq![uint_option_bytes(content_format_number(f->0))] } else { Seq::<Seq<u8>>::empty() }),
{
    match f {
        Some(g) => {
            let o = seq![(m, uint_option_bytes(content_format_number(g)))];
            assert(o.drop_last() =~= Seq::<(u16, Seq<u8>)>::empty());
            assert(o.last() == (m, uint_option_bytes(content_format_number(g))));
            assert(option_values_of(o.drop_last(), n) =~= Seq::<Seq<u8>>::empty());
            if m == n {
                assert(Seq::<Seq<u8>>::empty().push(uint_option_bytes(content_format_number(g))) =~= seq![uint_option_bytes(content_format_number(g))]);
            }
        },
        None => {},
    }
}

/// The values of each option in a request's wire form.
proof fn lemma_request_option_values(r: CoapRequest, n: u16)
    ensures
        option_values_of(request_options(r), n) == (if n == OPTION_URI_PATH {
            encode_all_utf8(path_segments(r.path@))
        } else if n == OPTION_URI_QUERY {
            encode_all_utf8(r.queries@.map_values(|s: String| s@))
        } else if n == OPTION_CONTENT_FORMAT && r.content_format is Some {
            seq![uint_option_bytes(content_format_number(r.content_format->0))]
        } else if n == OPTION_ACCEPT && r.accept is Some {
            seq![uint_option_bytes(content_format_number(r.accept->0))]
        } else {
            Seq::<Seq<u8>>::empty()
        }),
{
    let p = encode_all_utf8(path_segments(r.path@)).map_values(|b: Seq<u8>| (OPTION_URI_PATH, b));
    let cf = match r.content_format {
        Some(f) => seq![(OPTION_CONTENT_FORMAT, uint_option_bytes(content_format_number(f)))],
        None => Seq::empty(),
    };
    let q = encode_all_utf8(r.queries@.map_values(|s: String| s@)).map_values(|b: Seq<u8>| (OPTION_URI_QUERY, b));
    let ac = match r.accept {
        Some(f) => seq![(OPTION_ACCEPT, uint_option_bytes(content_format_number(f)))],
        None => Seq::empty(),
    };
    lemma_option_values_concat(p + cf + q, ac, n);
    lemma_option_values_concat(p + cf, q, n);
    lemma_option_values_concat(p, cf, n);
    lemma_option_values_uniform(encode_all_utf8(path_segments(r.path@)), OPTION_URI_PATH, n);
    lemma_option_values_uniform(encode_all_utf8(r.queries@.map_values(|s: String| s@)), OPTION_URI_QUERY, n);
    lemma_format_values(r.content_format, OPTION_CONTENT_FORMAT, n);
    lemma_format_values(r.accept, OPTION_ACCEPT, n);
    let e = Seq::<Seq<u8>>::empty();
    assert(e + e =~= e);
    if n == OPTION_URI_PATH {
        assert(encode_all_utf8(path_segments(r.path@)) + e + e + e =~= encode_all_utf8(path_segments(r.path@)));
    } else if n == OPTION_URI_QUERY {
        assert(e + e + encode_all_utf8(r.queries@.map_values(|s: String| s@)) + e =~= encode_all_utf8(r.queries@.map_values(|s: String| s@)));
    } else if n == OPTION_CONTENT_FORMAT && r.content_format is Some {
        assert(e + seq![uint_option_bytes(content_format_number(r.content_format->0))] + e + e
            =~= seq![uint_option_bytes(content_format_number(r.content_format->0))]);
    } else if n == OPTION_ACCEPT && r.accept is Some {
        assert(e + e + e + seq![uint_option_bytes(content_format_number(r.accept->0))]
            =~= seq![uint_option_bytes(content_format_number(r.accept->0))]);
    }
}

/// A request written as a message and read back is the same request: the
/// same method, queries, content format, accept, confirmability and
/// payload, and the path made of the same segments (written `/s1/s2/...`).
pub proof fn law_request_message_roundtrip(req: CoapRequest, m: Message, back: CoapRequest)
    requires
        m.message_type == (if req.confirmable { MessageType::Confirmable } else { MessageType::NonConfirmable }),
        m.code == MessageClass::Request(req.method),
        options_view(m.options@) == request_options(req),
        m.payload@ == req.payload@,
        request_read_from(m, back),
    ensures
        request_decodable(m),
        back.method == req.method,
        back.path@ == joined_path(path_segments(req.path@)),
        back.queries@.map_values(|s: String| s@) == req.queries@.map_values(|s: String| s@),
        back.content_format == req.content_format,
        back.accept == req.accept,
        back.confirmable == req.confirmable,
        back.payload@ == req.payload@,
{
    lemma_request_option_values(req, OPTION_URI_PATH);
    lemma_request_option_values(req, OPTION_URI_QUERY);
    lemma_request_option_values(req, OPTION_CONTENT_FORMAT);
    lemma_request_option_values(req, OPTION_ACCEPT);
    lemma_utf8_roundtrip_all(path_segments(req.path@));
    lemma_utf8_roundtrip_all(req.queries@.map_values(|s: String| s@));
    if let Some(f) = req.content_format {
        lemma_uint_option_roundtrip(content_format_number(f));
        crate::codes::lemma_content_format_roundtrip(f);
    }
    if let Some(f) = req.accept {
        lemma_uint_option_roundtrip(content_format_number(f));
        crate::codes::lemma_content_format_roundtrip(f);
    }
}

/// A response written as a message and read back is the same response: the
/// same code, token, content format and payload.
pub proof fn law_response_message_roundtrip(resp: CoapResponse, m: Message, back: CoapResponse)
    requires
        m.code == MessageClass::Response(resp.response_type),
        m.token@ == resp.token@,
        options_view(m.options@) == response_options(resp),
        m.payload@ == resp.payload@,
        response_read_from(m, back),
    ensures
        back.response_type == resp.response_type,
        back.token@ == resp.token@,
        back.content_format == resp.content_format,
        back.payload@ == resp.payload@,
{
    lemma_format_values(resp.content_format, OPTION_CONTENT_FORMAT, OPTION_CONTENT_FORMAT);
    if let Some(f) = resp.content_format {
        lemma_uint_option_roundtrip(content_format_number(f));
        crate::codes::lemma_content_format_roundtrip(f);
    }
}

} // verus!
