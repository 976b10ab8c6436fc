//! Codes of the CoAP message header (RFC 7252 §3, §12.1) and the
//! Content-Format registry (§12.3), each with its number.

use vstd::prelude::*;

verus! {

/// The message types (RFC 7252 §3).
#[derive(Debug, Clone, Copy, PartialEq, Eq, Structural)]
pub enum MessageType {
    Confirmable,
    NonConfirmable,
    Acknowledgement,
    Reset,
}

/// The number of each message type in the header's type field.
pub open spec fn message_type_bits(t: MessageType) -> u8 {
    match t {
        MessageType::Confirmable => 0,
        MessageType::NonConfirmable => 1,
        MessageType::Acknowledgement => 2,
        MessageType::Reset => 3,
    }
}

impl MessageType {
    /// The message type whose number is `bits` (the two-bit type field).
    pub fn from_bits(bits: u8) -> (r: MessageType)
        requires
            bits < 4,
        ensures
            message_type_bits(r) == bits,
    {
        if bits == 0 {
            MessageType::Confirmable
        } else if bits == 1 {
            MessageType::NonConfirmable
        } else if bits == 2 {
            MessageType::Acknowledgement
        } else {
            MessageType::Reset
        }
    }

    /// The number of this message type.
    pub fn bits(&self) -> (r: u8)
        ensures
            r == message_type_bits(*self),
    {
        match self {
            MessageType::Confirmable => 0,
            MessageType::NonConfirmable => 1,
            MessageType::Acknowledgement => 2,
            MessageType::Reset => 3,
        }
    }
}

/// The request codes.
#[derive(Debug, Clone, Copy, PartialEq, Eq, Structural)]
pub enum RequestType {
    Get,
    Post,
    Put,
    Delete,
    Fetch,
    Patch,
    IPatch,
    UnKnown,
}

/// The response codes.
#[derive(Debug, Clone, Copy, PartialEq, Eq, Structural)]
pub enum ResponseType {
    Created,
    Deleted,
    Valid,
    Changed,
    Content,
    Continue,
    BadRequest,
    Unauthorized,
    BadOption,
    Forbidden,
    NotFound,
    MethodNotAllowed,
    NotAcceptable,
    Conflict,
    PreconditionFailed,
    RequestEntityTooLarge,
    UnsupportedContentFormat,
    RequestEntityIncomplete,
    UnprocessableEntity,
    TooManyRequests,
    InternalServerError,
    NotImplemented,
    BadGateway,
    ServiceUnavailable,
    GatewayTimeout,
    ProxyingNotSupported,
    HopLimitReached,
    UnKnown,
}

/// The code class of a message: empty, a request, a response, or a code that
/// no class registers.
#[derive(Debug, Clone, Copy, PartialEq, Eq, Structural)]
pub enum MessageClass {
    Empty,
    Request(RequestType),
    Response(ResponseType),
    Reserved(u8),
}

/// The class that the code byte `c` stands for.
pub open spec fn class_of_code(c: u8) -> MessageClass {
    if c == 0x00 {
        MessageClass::Empty
    } else if c == 0x01 {
        MessageClass::Request(RequestType::Get)
    } else if c == 0x02 {
        MessageClass::Request(RequestType::Post)
    } else if c == 0x03 {
        MessageClass::Request(RequestType::Put)
    } else if c == 0x04 {
        MessageClass::Request(RequestType::Delete)
    } else if c == 0x05 {
        MessageClass::Request(RequestType::Fetch)
    } else if c == 0x06 {
        MessageClass::Request(RequestType::Patch)
    } else if c == 0x07 {
        MessageClass::Request(RequestType::IPatch)
    } else if c == 0x41 {
        MessageClass::Response(ResponseType::Created)
    } else if c == 0x42 {
        MessageClass::Response(ResponseType::Deleted)
    } else if c == 0x43 {
        MessageClass::Response(ResponseType::Valid)
    } else if c == 0x44 {
        MessageClass::Response(ResponseType::Changed)
    } else if c == 0x45 {
        MessageClass::Response(ResponseType::Content)
    } else if c == 0x5f {
        MessageClass::Response(ResponseType::Continue)
    } else if c == 0x80 {
        MessageClass::Response(ResponseType::BadRequest)
    } else if c == 0x81 {
        MessageClass::Response(ResponseType::Unauthorized)
    } else if c == 0x82 {
        MessageClass::Response(ResponseType::BadOption)
    } else if c == 0x83 {
        MessageClass::Response(ResponseType::Forbidden)
    } else if c == 0x84 {
        MessageClass::Response(ResponseType::NotFound)
    } else if c == 0x85 {
        MessageClass::Response(ResponseType::MethodNotAllowed)
    } else if c == 0x86 {
        MessageClass::Response(ResponseType::NotAcceptable)
    } else if c == 0x89 {
        MessageClass::Response(ResponseType::Conflict)
    } else if c == 0x8c {
        MessageClass::Response(ResponseType::PreconditionFailed)
    } else if c == 0x8d {
        MessageClass::Response(ResponseType::RequestEntityTooLarge)
    } else if c == 0x8f {
        MessageClass::Response(ResponseType::UnsupportedContentFormat)
    } else if c == 0x88 {
        MessageClass::Response(ResponseType::RequestEntityIncomplete)
    } else if c == 0x96 {
        MessageClass::Response(ResponseType::UnprocessableEntity)
    } else if c == 0x9d {
        MessageClass::Response(ResponseType::TooManyRequests)
    } else if c == 0xa0 {
        MessageClass::Response(ResponseType::InternalServerError)
    } else if c == 0xa1 {
        MessageClass::Response(ResponseType::NotImplemented)
    } else if c == 0xa2 {
        MessageClass::Response(ResponseType::BadGateway)
    } else if c == 0xa3 {
        MessageClass::Response(ResponseType::ServiceUnavailable)
    } else if c == 0xa4 {
        MessageClass::Response(ResponseType::GatewayTimeout)
    } else if c == 0xa5 {
        MessageClass::Response(ResponseType::ProxyingNotSupported)
    } else if c == 0xa8 {
        MessageClass::Response(ResponseType::HopLimitReached)
    } else {
        MessageClass::Reserved(c)
    }
}

/// The code byte of a class. The unknown request and response codes are
/// written as 0xFF.
pub open spec fn code_of_class(m: MessageClass) -> u8 {
    match m {
        MessageClass::Empty => 0x00,
        MessageClass::Request(RequestType::Get) => 0x01,
        MessageClass::Request(RequestType::Post) => 0x02,
        MessageClass::Request(RequestType::Put) => 0x03,
        MessageClass::Request(RequestType::Delete) => 0x04,
        MessageClass::Request(RequestType::Fetch) => 0x05,
        MessageClass::Request(RequestType::Patch) => 0x06,
        MessageClass::Request(RequestType::IPatch) => 0x07,
        MessageClass::Request(RequestType::UnKnown) => 0xff,
        MessageClass::Response(ResponseType::Created) => 0x41,
        MessageClass::Response(ResponseType::Deleted) => 0x42,
        MessageClass::Response(ResponseType::Valid) => 0x43,
        MessageClass::Response(ResponseType::Changed) => 0x44,
        MessageClass::Response(ResponseType::Content) => 0x45,
        MessageClass::Response(ResponseType::Continue) => 0x5f,
        MessageClass::Response(ResponseType::BadRequest) => 0x80,
        MessageClass::Response(ResponseType::Unauthorized) => 0x81,
        MessageClass::Response(ResponseType::BadOption) => 0x82,
        MessageClass::Response(ResponseType::Forbidden) => 0x83,
        MessageClass::Response(ResponseType::NotFound) => 0x84,
        MessageClass::Response(ResponseType::MethodNotAllowed) => 0x85,
        MessageClass::Response(ResponseType::NotAcceptable) => 0x86,
        MessageClass::Response(ResponseType::Conflict) => 0x89,
        MessageClass::Response(ResponseType::PreconditionFailed) => 0x8c,
        MessageClass::Response(ResponseType::RequestEntityTooLarge) => 0x8d,
        MessageClass::Response(ResponseType::UnsupportedContentFormat) => 0x8f,
        MessageClass::Response(ResponseType::RequestEntityIncomplete) => 0x88,
        MessageClass::Response(ResponseType::UnprocessableEntity) => 0x96,
        MessageClass::Response(ResponseType::TooManyRequests) => 0x9d,
        MessageClass::Response(ResponseType::InternalServerError) => 0xa0,
        MessageClass::Response(ResponseType::NotImplemented) => 0xa1,
        MessageClass::Response(ResponseType::BadGateway) => 0xa2,
        MessageClass::Response(ResponseType::ServiceUnavailable) => 0xa3,
        MessageClass::Response(ResponseType::GatewayTimeout) => 0xa4,
        MessageClass::Response(ResponseType::ProxyingNotSupported) => 0xa5,
        MessageClass::Response(ResponseType::HopLimitReached) => 0xa8,
        MessageClass::Response(ResponseType::UnKnown) => 0xff,
        MessageClass::Reserved(c) => c,
    }
}

impl MessageClass {
    /// The class of code byte `c`.
    pub fn from_code(c: u8) -> (r: MessageClass)
        ensures
            r == class_of_code(c),
    {
        if c == 0x00 {
            MessageClass::Empty
        } else if c == 0x01 {
            MessageClass::Request(RequestType::Get)
        } else if c == 0x02 {
            MessageClass::Request(RequestType::Post)
        } else if c == 0x03 {
            MessageClass::Request(RequestType::Put)
        } else if c == 0x04 {
            MessageClass::Request(RequestType::Delete)
        } else if c == 0x05 {
            MessageClass::Request(RequestType::Fetch)
        } else if c == 0x06 {
            MessageClass::Request(RequestType::Patch)
        } else if c == 0x07 {
            MessageClass::Request(RequestType::IPatch)
        } else if c == 0x41 {
            MessageClass::Response(ResponseType::Created)
        } else if c == 0x42 {
            MessageClass::Response(ResponseType::Deleted)
        } else if c == 0x43 {
            MessageClass::Response(ResponseType::Valid)
        } else if c == 0x44 {
            MessageClass::Response(ResponseType::Changed)
        } else if c == 0x45 {
            MessageClass::Response(ResponseType::Content)
        } else if c == 0x5f {
            MessageClass::Response(ResponseType::Continue)
        } else if c == 0x80 {
            MessageClass::Response(ResponseType::BadRequest)
        } else if c == 0x81 {
            MessageClass::Response(ResponseType::Unauthorized)
        } else if c == 0x82 {
            MessageClass::Response(ResponseType::BadOption)
        } else if c == 0x83 {
            MessageClass::Response(ResponseType::Forbidden)
        } else if c == 0x84 {
            MessageClass::Response(ResponseType::NotFound)
        } else if c == 0x85 {
            MessageClass::Response(ResponseType::MethodNotAllowed)
        } else if c == 0x86 {
            MessageClass::Response(ResponseType::NotAcceptable)
        } else if c == 0x89 {
            MessageClass::Response(ResponseType::Conflict)
        } else if c == 0x8c {
            MessageClass::Response(ResponseType::PreconditionFailed)
        } else if c == 0x8d {
            MessageClass::Response(ResponseType::RequestEntityTooLarge)
        } else if c == 0x8f {
            MessageClass::Response(ResponseType::UnsupportedContentFormat)
        } else if c == 0x88 {
            MessageClass::Response(ResponseType::RequestEntityIncomplete)
        } else if c == 0x96 {
            MessageClass::Response(ResponseType::UnprocessableEntity)
        } else if c == 0x9d {
            MessageClass::Response(ResponseType::TooManyRequests)
        } else if c == 0xa0 {
            MessageClass::Response(ResponseType::InternalServerError)
        } else if c == 0xa1 {
            MessageClass::Response(ResponseType::NotImplemented)
        } else if c == 0xa2 {
            MessageClass::Response(ResponseType::BadGateway)
        } else if c == 0xa3 {
            MessageClass::Response(ResponseType::ServiceUnavailable)
        } else if c == 0xa4 {
            MessageClass::Response(ResponseType::GatewayTimeout)
        } else if c == 0xa5 {
            MessageClass::Response(ResponseType::ProxyingNotSupported)
        } else if c == 0xa8 {
            MessageClass::Response(ResponseType::HopLimitReached)
        } else {
            MessageClass::Reserved(c)
        }
    }

    /// The code byte of this class.
    pub fn code(&self) -> (r: u8)
        ensures
            r == code_of_class(*self),
    {
        match self {
            MessageClass::Empty => 0x00,
            MessageClass::Request(RequestType::Get) => 0x01,
            MessageClass::Request(RequestType::Post) => 0x02,
            MessageClass::Request(RequestType::Put) => 0x03,
            MessageClass::Request(RequestType::Delete) => 0x04,
            MessageClass::Request(RequestType::Fetch) => 0x05,
            MessageClass::Request(RequestType::Patch) => 0x06,
            MessageClass::Request(RequestType::IPatch) => 0x07,
            MessageClass::Request(RequestType::UnKnown) => 0xff,
            MessageClass::Response(ResponseType::Created) => 0x41,
            MessageClass::Response(ResponseType::Deleted) => 0x42,
            MessageClass::Response(ResponseType::Valid) => 0x43,
            MessageClass::Response(ResponseType::Changed) => 0x44,
            MessageClass::Response(ResponseType::Content) => 0x45,
            MessageClass::Response(ResponseType::Continue) => 0x5f,
            MessageClass::Response(ResponseType::BadRequest) => 0x80,
            MessageClass::Response(ResponseType::Unauthorized) => 0x81,
            MessageClass::Response(ResponseType::BadOption) => 0x82,
            MessageClass::Response(ResponseType::Forbidden) => 0x83,
            MessageClass::Response(ResponseType::NotFound) => 0x84,
            MessageClass::Response(ResponseType::MethodNotAllowed) => 0x85,
            MessageClass::Response(ResponseType::NotAcceptable) => 0x86,
            MessageClass::Response(ResponseType::Conflict) => 0x89,
            MessageClass::Response(ResponseType::PreconditionFailed) => 0x8c,
            MessageClass::Response(ResponseType::RequestEntityTooLarge) => 0x8d,
            MessageClass::Response(ResponseType::UnsupportedContentFormat) => 0x8f,
            MessageClass::Response(ResponseType::RequestEntityIncomplete) => 0x88,
            MessageClass::Response(ResponseType::UnprocessableEntity) => 0x96,
            MessageClass::Response(ResponseType::TooManyRequests) => 0x9d,
            MessageClass::Response(ResponseType::InternalServerError) => 0xa0,
            MessageClass::Response(ResponseType::NotImplemented) => 0xa1,
            MessageClass::Response(ResponseType::BadGateway) => 0xa2,
            MessageClass::Response(ResponseType::ServiceUnavailable) => 0xa3,
            MessageClass::Response(ResponseType::GatewayTimeout) => 0xa4,
            MessageClass::Response(ResponseType::ProxyingNotSupported) => 0xa5,
            MessageClass::Response(ResponseType::HopLimitReached) => 0xa8,
            MessageClass::Response(ResponseType::UnKnown) => 0xff,
            MessageClass::Reserved(c) => *c,
        }
    }
}

/// The code a response type is registered under in RFC 7252 and its
/// successors, as "class.detail": 2.01 Created, 4.04 Not Found, and so on.
pub open spec fn registered_response_code(rt: ResponseType) -> (int, int) {
    match rt {
        ResponseType::Created => (2, 1),
        ResponseType::Deleted => (2, 2),
        ResponseType::Valid => (2, 3),
        ResponseType::Changed => (2, 4),
        ResponseType::Content => (2, 5),
        ResponseType::Continue => (2, 31),
        ResponseType::BadRequest => (4, 0),
        ResponseType::Unauthorized => (4, 1),
        ResponseType::BadOption => (4, 2),
        ResponseType::Forbidden => (4, 3),
        ResponseType::NotFound => (4, 4),
        ResponseType::MethodNotAllowed => (4, 5),
        ResponseType::NotAcceptable => (4, 6),
        ResponseType::RequestEntityIncomplete => (4, 8),
        ResponseType::Conflict => (4, 9),
        ResponseType::PreconditionFailed => (4, 12),
        ResponseType::RequestEntityTooLarge => (4, 13),
        ResponseType::UnsupportedContentFormat => (4, 15),
        ResponseType::UnprocessableEntity => (4, 22),
        ResponseType::TooManyRequests => (4, 29),
        ResponseType::InternalServerError => (5, 0),
        ResponseType::NotImplemented => (5, 1),
        ResponseType::BadGateway => (5, 2),
        ResponseType::ServiceUnavailable => (5, 3),
        ResponseType::GatewayTimeout => (5, 4),
        ResponseType::ProxyingNotSupported => (5, 5),
        ResponseType::HopLimitReached => (5, 8),
        ResponseType::UnKnown => (7, 31),
    }
}

/// The method number a request type is registered under (class 0): 0.01
/// GET, 0.02 POST, 0.03 PUT, 0.04 DELETE, 0.05 FETCH, 0.06 PATCH, 0.07
/// iPATCH.
pub open spec fn registered_method_code(rt: RequestType) -> int {
    match rt {
        RequestType::Get => 1,
        RequestType::Post => 2,
        RequestType::Put => 3,
        RequestType::Delete => 4,
        RequestType::Fetch => 5,
        RequestType::Patch => 6,
        RequestType::IPatch => 7,
        RequestType::UnKnown => 255,
    }
}

/// A code byte holds the class in its top three bits and the detail in the
/// low five: "c.dd" is the byte `c * 32 + dd`.
pub open spec fn code_byte(class: int, detail: int) -> int {
    class * 32 + detail
}

/// Every registered response code is written as, and read back from, its
/// registered byte: 2.01 Created is 0x41, 2.04 Changed is 0x44, 4.04 Not
/// Found is 0x84, and so on for each response type.
pub proof fn law_response_codes_registered(rt: ResponseType)
    requires
        rt != ResponseType::UnKnown,
    ensures
        code_of_class(MessageClass::Response(rt)) as int
            == code_byte(registered_response_code(rt).0, registered_response_code(rt).1),
        class_of_code(code_byte(registered_response_code(rt).0, registered_response_code(rt).1) as u8)
            == MessageClass::Response(rt),
{
}

/// Every registered method is written as, and read back from, its code
/// byte 0.dd; code 0.00 is the empty message.
pub proof fn law_request_codes_registered(rt: RequestType)
    requires
        rt != RequestType::UnKnown,
    ensures
        code_of_class(MessageClass::Request(rt)) as int == code_byte(0, registered_method_code(rt)),
        class_of_code(code_byte(0, registered_method_code(rt)) as u8) == MessageClass::Request(rt),
        code_of_class(MessageClass::Empty) == 0,
        class_of_code(0) == MessageClass::Empty,
{
}

/// Reading a code byte as a class and writing the class back gives the
/// same byte: every code byte survives a decode and re-encode.
pub proof fn lemma_code_roundtrip(c: u8)
    ensures
        code_of_class(class_of_code(c)) == c,
{
}

/// A class that is neither reserved nor unknown is read back from its code
/// byte unchanged.
pub proof fn lemma_class_roundtrip(m: MessageClass)
    requires
        !(m is Reserved),
        m != MessageClass::Request(RequestType::UnKnown),
        m != MessageClass::Response(ResponseType::UnKnown),
    ensures
        class_of_code(code_of_class(m)) == m,
{
}

/// The registered content formats.
#[derive(Debug, Clone, Copy, PartialEq, Eq, Structural)]
pub enum ContentFormat {
    TextPlain,
    ApplicationCoseEncrypt0,
    ApplicationCoseMac0,
    ApplicationCoseSign1,
    ApplicationAceCbor,
    ImageGif,
    ImageJpeg,
    ImagePng,
    ApplicationLinkFormat,
    ApplicationXML,
    ApplicationOctetStream,
    ApplicationEXI,
    ApplicationJSON,
    ApplicationJsonPatchJson,
    ApplicationMergePatchJson,
    ApplicationCBOR,
    ApplicationCWt,
    ApplicationMultipartCore,
    ApplicationCborSeq,
    ApplicationCoseEncrypt,
    ApplicationCoseMac,
    ApplicationCoseSign,
    ApplicationCoseKey,
    ApplicationCoseKeySet,
    ApplicationSenmlJSON,
    ApplicationSensmlJSON,
    ApplicationSenmlCBOR,
    ApplicationSensmlCBOR,
    ApplicationSenmlExi,
    ApplicationSensmlExi,
    ApplicationYangDataCborSid,
    ApplicationCoapGroupJson,
    ApplicationDotsCbor,
    ApplicationMissingBlocksCborSeq,
    ApplicationPkcs7MimeServerGeneratedKey,
    ApplicationPkcs7MimeCertsOnly,
    ApplicationPkcs8,
    ApplicationCsrattrs,
    ApplicationPkcs10,
    ApplicationPkixCert,
    ApplicationAifCbor,
    ApplicationAifJson,
    ApplicationSenmlXML,
    ApplicationSensmlXML,
    ApplicationSenmlEtchJson,
    ApplicationSenmlEtchCbor,
    ApplicationYangDataCbor,
    ApplicationYangDataCborName,
    ApplicationTdJson,
    ApplicationVoucherCoseCbor,
    ApplicationVndOcfCbor,
    ApplicationOscore,
    ApplicationJavascript,
    ApplicationJsonDeflate,
    ApplicationCborDeflate,
    ApplicationVndOmaLwm2mTlv,
    ApplicationVndOmaLwm2mJson,
    ApplicationVndOmaLwm2mCbor,
    TextCss,
    ImageSvgXml,
}

/// The registered number of each content format.
pub open spec fn content_format_number(f: ContentFormat) -> u16 {
    match f {
        ContentFormat::TextPlain => 0,
        ContentFormat::ApplicationCoseEncrypt0 => 16,
        ContentFormat::ApplicationCoseMac0 => 17,
        ContentFormat::ApplicationCoseSign1 => 18,
        ContentFormat::ApplicationAceCbor => 19,
        ContentFormat::ImageGif => 21,
        ContentFormat::ImageJpeg => 22,
        ContentFormat::ImagePng => 23,
        ContentFormat::ApplicationLinkFormat => 40,
        ContentFormat::ApplicationXML => 41,
        ContentFormat::ApplicationOctetStream => 42,
        ContentFormat::ApplicationEXI => 47,
        ContentFormat::ApplicationJSON => 50,
        ContentFormat::ApplicationJsonPatchJson => 51,
        ContentFormat::ApplicationMergePatchJson => 52,
        ContentFormat::ApplicationCBOR => 60,
        ContentFormat::ApplicationCWt => 61,
        ContentFormat::ApplicationMultipartCore => 62,
        ContentFormat::ApplicationCborSeq => 63,
        ContentFormat::ApplicationCoseEncrypt => 96,
        ContentFormat::ApplicationCoseMac => 97,
        ContentFormat::ApplicationCoseSign => 98,
        ContentFormat::ApplicationCoseKey => 101,
        ContentFormat::ApplicationCoseKeySet => 102,
        ContentFormat::ApplicationSenmlJSON => 110,
        ContentFormat::ApplicationSensmlJSON => 111,
        ContentFormat::ApplicationSenmlCBOR => 112,
        ContentFormat::ApplicationSensmlCBOR => 113,
        ContentFormat::ApplicationSenmlExi => 114,
        ContentFormat::ApplicationSensmlExi => 115,
        ContentFormat::ApplicationYangDataCborSid => 140,
        ContentFormat::ApplicationCoapGroupJson => 256,
        ContentFormat::ApplicationDotsCbor => 271,
        ContentFormat::ApplicationMissingBlocksCborSeq => 272,
        ContentFormat::ApplicationPkcs7MimeServerGeneratedKey => 280,
        ContentFormat::ApplicationPkcs7MimeCertsOnly => 281,
        ContentFormat::ApplicationPkcs8 => 284,
        ContentFormat::ApplicationCsrattrs => 285,
        ContentFormat::ApplicationPkcs10 => 286,
        ContentFormat::ApplicationPkixCert => 287,
        ContentFormat::ApplicationAifCbor => 290,
        ContentFormat::ApplicationAifJson => 291,
        ContentFormat::ApplicationSenmlXML => 310,
        ContentFormat::ApplicationSensmlXML => 311,
        ContentFormat::ApplicationSenmlEtchJson => 320,
        ContentFormat::ApplicationSenmlEtchCbor => 322,
        ContentFormat::ApplicationYangDataCbor => 340,
        ContentFormat::ApplicationYangDataCborName => 341,
        ContentFormat::ApplicationTdJson => 432,
        ContentFormat::ApplicationVoucherCoseCbor => 836,
        ContentFormat::ApplicationVndOcfCbor => 10000,
        ContentFormat::ApplicationOscore => 10001,
        ContentFormat::ApplicationJavascript => 10002,
        ContentFormat::ApplicationJsonDeflate => 11050,
        ContentFormat::ApplicationCborDeflate => 11060,
        ContentFormat::ApplicationVndOmaLwm2mTlv => 11542,
        ContentFormat::ApplicationVndOmaLwm2mJson => 11543,
        ContentFormat::ApplicationVndOmaLwm2mCbor => 11544,
        ContentFormat::TextCss => 20000,
        ContentFormat::ImageSvgXml => 30000,
    }
}

impl ContentFormat {
    /// The registered number of this content format.
    pub fn number(&self) -> (r: u16)
        ensures
            r == content_format_number(*self),
    {
        match self {
            ContentFormat::TextPlain => 0,
            ContentFormat::ApplicationCoseEncrypt0 => 16,
            ContentFormat::ApplicationCoseMac0 => 17,
            ContentFormat::ApplicationCoseSign1 => 18,
            ContentFormat::ApplicationAceCbor => 19,
            ContentFormat::ImageGif => 21,
            ContentFormat::ImageJpeg => 22,
            ContentFormat::ImagePng => 23,
            ContentFormat::ApplicationLinkFormat => 40,
            ContentFormat::ApplicationXML => 41,
            ContentFormat::ApplicationOctetStream => 42,
            ContentFormat::ApplicationEXI => 47,
            ContentFormat::ApplicationJSON => 50,
            ContentFormat::ApplicationJsonPatchJson => 51,
            ContentFormat::ApplicationMergePatchJson => 52,
            ContentFormat::ApplicationCBOR => 60,
            ContentFormat::ApplicationCWt => 61,
            ContentFormat::ApplicationMultipartCore => 62,
            ContentFormat::ApplicationCborSeq => 63,
            ContentFormat::ApplicationCoseEncrypt => 96,
            ContentFormat::ApplicationCoseMac => 97,
            ContentFormat::ApplicationCoseSign => 98,
            ContentFormat::ApplicationCoseKey => 101,
            ContentFormat::ApplicationCoseKeySet => 102,
            ContentFormat::ApplicationSenmlJSON => 110,
            ContentFormat::ApplicationSensmlJSON => 111,
            ContentFormat::ApplicationSenmlCBOR => 112,
            ContentFormat::ApplicationSensmlCBOR => 113,
            ContentFormat::ApplicationSenmlExi => 114,
            ContentFormat::ApplicationSensmlExi => 115,
            ContentFormat::ApplicationYangDataCborSid => 140,
            ContentFormat::ApplicationCoapGroupJson => 256,
            ContentFormat::ApplicationDotsCbor => 271,
            ContentFormat::ApplicationMissingBlocksCborSeq => 272,
            ContentFormat::ApplicationPkcs7MimeServerGeneratedKey => 280,
            ContentFormat::ApplicationPkcs7MimeCertsOnly => 281,
            ContentFormat::ApplicationPkcs8 => 284,
            ContentFormat::ApplicationCsrattrs => 285,
            ContentFormat::ApplicationPkcs10 => 286,
            ContentFormat::ApplicationPkixCert => 287,
            ContentFormat::ApplicationAifCbor => 290,
            ContentFormat::ApplicationAifJson => 291,
            ContentFormat::ApplicationSenmlXML => 310,
            ContentFormat::ApplicationSensmlXML => 311,
            ContentFormat::ApplicationSenmlEtchJson => 320,
            ContentFormat::ApplicationSenmlEtchCbor => 322,
            ContentFormat::ApplicationYangDataCbor => 340,
            ContentFormat::ApplicationYangDataCborName => 341,
            ContentFormat::ApplicationTdJson => 432,
            ContentFormat::ApplicationVoucherCoseCbor => 836,
            ContentFormat::ApplicationVndOcfCbor => 10000,
            ContentFormat::ApplicationOscore => 10001,
            ContentFormat::ApplicationJavascript => 10002,
            ContentFormat::ApplicationJsonDeflate => 11050,
            ContentFormat::ApplicationCborDeflate => 11060,
            ContentFormat::ApplicationVndOmaLwm2mTlv => 11542,
            ContentFormat::ApplicationVndOmaLwm2mJson => 11543,
            ContentFormat::ApplicationVndOmaLwm2mCbor => 11544,
            ContentFormat::TextCss => 20000,
            ContentFormat::ImageSvgXml => 30000,
        }
    }

    /// The content format registered under `n`, if any.
    pub fn from_number(n: u16) -> (r: Option<ContentFormat>)
        ensures
            r == content_format_of_number(n),
    {
        if n == 0 {
            Some(ContentFormat::TextPlain)
        } else if n == 16 {
            Some(ContentFormat::ApplicationCoseEncrypt0)
        } else if n == 17 {
            Some(ContentFormat::ApplicationCoseMac0)
        } else if n == 18 {
            Some(ContentFormat::ApplicationCoseSign1)
        } else if n == 19 {
            Some(ContentFormat::ApplicationAceCbor)
        } else if n == 21 {
            Some(ContentFormat::ImageGif)
        } else if n == 22 {
            Some(ContentFormat::ImageJpeg)
        } else if n == 23 {
            Some(ContentFormat::ImagePng)
        } else if n == 40 {
            Some(ContentFormat::ApplicationLinkFormat)
        } else if n == 41 {
            Some(ContentFormat::ApplicationXML)
        } else if n == 42 {
            Some(ContentFormat::ApplicationOctetStream)
        } else if n == 47 {
            Some(ContentFormat::ApplicationEXI)
        } else if n == 50 {
            Some(ContentFormat::ApplicationJSON)
        } else if n == 51 {
            Some(ContentFormat::ApplicationJsonPatchJson)
        } else if n == 52 {
            Some(ContentFormat::ApplicationMergePatchJson)
        } else if n == 60 {
            Some(ContentFormat::ApplicationCBOR)
        } else if n == 61 {
            Some(ContentFormat::ApplicationCWt)
        } else if n == 62 {
            Some(ContentFormat::ApplicationMultipartCore)
        } else if n == 63 {
            Some(ContentFormat::ApplicationCborSeq)
        } else if n == 96 {
            Some(ContentFormat::ApplicationCoseEncrypt)
        } else if n == 97 {
            Some(ContentFormat::ApplicationCoseMac)
        } else if n == 98 {
            Some(ContentFormat::ApplicationCoseSign)
        } else if n == 101 {
            Some(ContentFormat::ApplicationCoseKey)
        } else if n == 102 {
            Some(ContentFormat::ApplicationCoseKeySet)
        } else if n == 110 {
            Some(ContentFormat::ApplicationSenmlJSON)
        } else if n == 111 {
            Some(ContentFormat::ApplicationSensmlJSON)
        } else if n == 112 {
            Some(ContentFormat::ApplicationSenmlCBOR)
        } else if n == 113 {
            Some(ContentFormat::ApplicationSensmlCBOR)
        } else if n == 114 {
            Some(ContentFormat::ApplicationSenmlExi)
        } else if n == 115 {
            Some(ContentFormat::ApplicationSensmlExi)
        } else if n == 140 {
            Some(ContentFormat::ApplicationYangDataCborSid)
        } else if n == 256 {
            Some(ContentFormat::ApplicationCoapGroupJson)
        } else if n == 271 {
            Some(ContentFormat::ApplicationDotsCbor)
        } else if n == 272 {
            Some(ContentFormat::ApplicationMissingBlocksCborSeq)
        } else if n == 280 {
            Some(ContentFormat::ApplicationPkcs7MimeServerGeneratedKey)
        } else if n == 281 {
            Some(ContentFormat::ApplicationPkcs7MimeCertsOnly)
        } else if n == 284 {
            Some(ContentFormat::ApplicationPkcs8)
        } else if n == 285 {
            Some(ContentFormat::ApplicationCsrattrs)
        } else if n == 286 {
            Some(ContentFormat::ApplicationPkcs10)
        } else if n == 287 {
            Some(ContentFormat::ApplicationPkixCert)
        } else if n == 290 {
            Some(ContentFormat::ApplicationAifCbor)
        } else if n == 291 {
            Some(ContentFormat::ApplicationAifJson)
        } else if n == 310 {
            Some(ContentFormat::ApplicationSenmlXML)
        } else if n == 311 {
            Some(ContentFormat::ApplicationSensmlXML)
        } else if n == 320 {
            Some(ContentFormat::ApplicationSenmlEtchJson)
        } else if n == 322 {
            Some(ContentFormat::ApplicationSenmlEtchCbor)
        } else if n == 340 {
            Some(ContentFormat::ApplicationYangDataCbor)
        } else if n == 341 {
            Some(ContentFormat::ApplicationYangDataCborName)
        } else if n == 432 {
            Some(ContentFormat::ApplicationTdJson)
        } else if n == 836 {
            Some(ContentFormat::ApplicationVoucherCoseCbor)
        } else if n == 10000 {
            Some(ContentFormat::ApplicationVndOcfCbor)
        } else if n == 10001 {
            Some(ContentFormat::ApplicationOscore)
        } else if n == 10002 {
            Some(ContentFormat::ApplicationJavascript)
        } else if n == 11050 {
            Some(ContentFormat::ApplicationJsonDeflate)
        } else if n == 11060 {
            Some(ContentFormat::ApplicationCborDeflate)
        } else if n == 11542 {
            Some(ContentFormat::ApplicationVndOmaLwm2mTlv)
        } else if n == 11543 {
            Some(ContentFormat::ApplicationVndOmaLwm2mJson)
        } else if n == 11544 {
            Some(ContentFormat::ApplicationVndOmaLwm2mCbor)
        } else if n == 20000 {
            Some(ContentFormat::TextCss)
        } else if n == 30000 {
            Some(ContentFormat::ImageSvgXml)
        } else {
            None
        }
    }
}

/// A content format is read back from its number unchanged.
pub proof fn lemma_content_format_roundtrip(f: ContentFormat)
    ensures
        content_format_of_number(content_format_number(f)) == Some(f),
{
}

/// The content format registered under number `n`, if any.
pub open spec fn content_format_of_number(n: u16) -> Option<ContentFormat> {
    if n == 0 {
        Some(ContentFormat::TextPlain)
    } else if n == 16 {
        Some(ContentFormat::ApplicationCoseEncrypt0)
    } else if n == 17 {
        Some(ContentFormat::ApplicationCoseMac0)
    } else if n == 18 {
        Some(ContentFormat::ApplicationCoseSign1)
    } else if n == 19 {
        Some(ContentFormat::ApplicationAceCbor)
    } else if n == 21 {
        Some(ContentFormat::ImageGif)
    } else if n == 22 {
        Some(ContentFormat::ImageJpeg)
    } else if n == 23 {
        Some(ContentFormat::ImagePng)
    } else if n == 40 {
        Some(ContentFormat::ApplicationLinkFormat)
    } else if n == 41 {
        Some(ContentFormat::ApplicationXML)
    } else if n == 42 {
        Some(ContentFormat::ApplicationOctetStream)
    } else if n == 47 {
        Some(ContentFormat::ApplicationEXI)
    } else if n == 50 {
        Some(ContentFormat::ApplicationJSON)
    } else if n == 51 {
        Some(ContentFormat::ApplicationJsonPatchJson)
    } else if n == 52 {
        Some(ContentFormat::ApplicationMergePatchJson)
    } else if n == 60 {
        Some(ContentFormat::ApplicationCBOR)
    } else if n == 61 {
        Some(ContentFormat::ApplicationCWt)
    } else if n == 62 {
        Some(ContentFormat::ApplicationMultipartCore)
    } else if n == 63 {
        Some(ContentFormat::ApplicationCborSeq)
    } else if n == 96 {
        Some(ContentFormat::ApplicationCoseEncrypt)
    } else if n == 97 {
        Some(ContentFormat::ApplicationCoseMac)
    } else if n == 98 {
        Some(ContentFormat::ApplicationCoseSign)
    } else if n == 101 {
        Some(ContentFormat::ApplicationCoseKey)
    } else if n == 102 {
        Some(ContentFormat::ApplicationCoseKeySet)
    } else if n == 110 {
        Some(ContentFormat::ApplicationSenmlJSON)
    } else if n == 111 {
        Some(ContentFormat::ApplicationSensmlJSON)
    } else if n == 112 {
        Some(ContentFormat::ApplicationSenmlCBOR)
    } else if n == 113 {
        Some(ContentFormat::ApplicationSensmlCBOR)
    } else if n == 114 {
        Some(ContentFormat::ApplicationSenmlExi)
    } else if n == 115 {
        Some(ContentFormat::ApplicationSensmlExi)
    } else if n == 140 {
        Some(ContentFormat::ApplicationYangDataCborSid)
    } else if n == 256 {
        Some(ContentFormat::ApplicationCoapGroupJson)
    } else if n == 271 {
        Some(ContentFormat::ApplicationDotsCbor)
    } else if n == 272 {
        Some(ContentFormat::ApplicationMissingBlocksCborSeq)
    } else if n == 280 {
        Some(ContentFormat::ApplicationPkcs7MimeServerGeneratedKey)
    } else if n == 281 {
        Some(ContentFormat::ApplicationPkcs7MimeCertsOnly)
    } else if n == 284 {
        Some(ContentFormat::ApplicationPkcs8)
    } else if n == 285 {
        Some(ContentFormat::ApplicationCsrattrs)
    } else if n == 286 {
        Some(ContentFormat::ApplicationPkcs10)
    } else if n == 287 {
        Some(ContentFormat::ApplicationPkixCert)
    } else if n == 290 {
        Some(ContentFormat::ApplicationAifCbor)
    } else if n == 291 {
        Some(ContentFormat::ApplicationAifJson)
    } else if n == 310 {
        Some(ContentFormat::ApplicationSenmlXML)
    } else if n == 311 {
        Some(ContentFormat::ApplicationSensmlXML)
    } else if n == 320 {
        Some(ContentFormat::ApplicationSenmlEtchJson)
    } else if n == 322 {
        Some(ContentFormat::ApplicationSenmlEtchCbor)
    } else if n == 340 {
        Some(ContentFormat::ApplicationYangDataCbor)
    } else if n == 341 {
        Some(ContentFormat::ApplicationYangDataCborName)
    } else if n == 432 {
        Some(ContentFormat::ApplicationTdJson)
    } else if n == 836 {
        Some(ContentFormat::ApplicationVoucherCoseCbor)
    } else if n == 10000 {
        Some(ContentFormat::ApplicationVndOcfCbor)
    } else if n == 10001 {
        Some(ContentFormat::ApplicationOscore)
    } else if n == 10002 {
        Some(ContentFormat::ApplicationJavascript)
    } else if n == 11050 {
        Some(ContentFormat::ApplicationJsonDeflate)
    } else if n == 11060 {
        Some(ContentFormat::ApplicationCborDeflate)
    } else if n == 11542 {
        Some(ContentFormat::ApplicationVndOmaLwm2mTlv)
    } else if n == 11543 {
        Some(ContentFormat::ApplicationVndOmaLwm2mJson)
    } else if n == 11544 {
        Some(ContentFormat::ApplicationVndOmaLwm2mCbor)
    } else if n == 20000 {
        Some(ContentFormat::TextCss)
    } else if n == 30000 {
        Some(ContentFormat::ImageSvgXml)
    } else {
        None
    }
}

} // verus!
