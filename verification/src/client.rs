//! The client side: building a request for a peer and turning what came
//! back for it into the caller's result.

use vstd::prelude::*;
use crate::codes::{ContentFormat, RequestType};
use crate::exchange::{PeerAddr, TransportError};
use crate::message::{CoapRequest, CoapRequestBuilder, CoapResponse, MessageError};

verus! {

/// How long a request waits for its response unless told otherwise, in
/// milliseconds.
pub const DEFAULT_REQUEST_TIMEOUT_MS: u64 = 30000;

/// Why a request failed.
#[derive(Debug)]
pub enum ClientError {
    /// The transport failed the exchange.
    Transport(TransportError),
    /// The response could not be read.
    Message(MessageError),
    /// The transport dropped the exchange without an answer.
    ChannelClosed,
    /// No answer came within the request's timeout.
    Timeout,
}

/// A request ready to be handed to the transport.
pub struct ClientRequest {
    pub peer: PeerAddr,
    pub request: CoapRequest,
    /// How long to wait for the response, in milliseconds.
    pub timeout_ms: u64,
}

/// Builds a request for a peer with a fluent API. Requests are confirmable
/// unless told otherwise.
pub struct ClientRequestBuilder {
    pub peer: PeerAddr,
    pub base: CoapRequestBuilder,
    /// How long to wait for the response, in milliseconds.
    pub timeout_ms: u64,
}

/// The Uri-Query value `key=value`.
pub open spec fn query_pair(key: Seq<char>, value: Seq<char>) -> Seq<char> {
    key.push('=') + value
}

impl ClientRequestBuilder {
    /// A builder for a request with `method` to `peer`, waiting
    /// `DEFAULT_REQUEST_TIMEOUT_MS` for the response.
    pub fn new(peer: PeerAddr, method: RequestType) -> (r: Self)
        ensures
            r.peer == peer,
            r.base.method == method,
            r.base.path@ == Seq::<char>::empty(),
            r.base.queries@.len() == 0,
            r.base.content_format is None,
            r.base.accept is None,
            r.base.confirmable,
            r.base.payload@.len() == 0,
            r.timeout_ms == DEFAULT_REQUEST_TIMEOUT_MS,
    {
        ClientRequestBuilder { peer, base: CoapRequestBuilder::new(method), timeout_ms: DEFAULT_REQUEST_TIMEOUT_MS }
    }

    /// Sets the URI path (e.g. "/sensors/temperature"), replacing any path
    /// set before.
    pub fn path(self, path: &str) -> (r: Self)
        ensures
            r.peer == self.peer,
            r.timeout_ms == self.timeout_ms,
            r.base == (CoapRequestBuilder { path: r.base.path, ..self.base }),
            r.base.path@ == path@,
    {
        let mut p = String::new();
        crate::path::push_str(&mut p, path);
        proof {
            assert(p@ =~= path@);
        }
        ClientRequestBuilder { base: CoapRequestBuilder { path: p, ..self.base }, ..self }
    }

    /// Adds the Uri-Query value `key=value`.
    pub fn query(self, key: &str, value: &str) -> (r: Self)
        ensures
            r.peer == self.peer,
            r.timeout_ms == self.timeout_ms,
            r.base == (CoapRequestBuilder { queries: r.base.queries, ..self.base }),
            r.base.queries@.map_values(|s: String| s@)
                == self.base.queries@.map_values(|s: String| s@).push(query_pair(key@, value@)),
    {
        let mut q = String::new();
        crate::path::push_str(&mut q, key);
        crate::path::push_char(&mut q, '=');
        crate::path::push_str(&mut q, value);
        proof {
            assert(q@ =~= query_pair(key@, value@));
        }
        ClientRequestBuilder { base: self.base.query(q.as_str()), ..self }
    }

    /// Sets the payload.
    pub fn payload(self, data: Vec<u8>) -> (r: Self)
        ensures
            r.peer == self.peer,
            r.timeout_ms == self.timeout_ms,
            r.base == (CoapRequestBuilder { payload: r.base.payload, ..self.base }),
            r.base.payload@ == data@,
    {
        ClientRequestBuilder { base: self.base.payload(data.as_slice()), ..self }
    }

    /// Sets the Content-Format option.
    pub fn content_format(self, cf: ContentFormat) -> (r: Self)
        ensures
            r == (ClientRequestBuilder { base: CoapRequestBuilder { content_format: Some(cf), ..self.base }, ..self }),
    {
        ClientRequestBuilder { base: self.base.content_format(cf), ..self }
    }

    /// Sets the Accept option.
    pub fn accept(self, cf: ContentFormat) -> (r: Self)
        ensures
            r == (ClientRequestBuilder { base: CoapRequestBuilder { accept: Some(cf), ..self.base }, ..self }),
    {
        ClientRequestBuilder { base: self.base.accept(cf), ..self }
    }

    /// Sets whether the request is confirmable (retransmitted until
    /// acknowledged) or not.
    pub fn confirmable(self, confirm: bool) -> (r: Self)
        ensures
            r == (ClientRequestBuilder { base: CoapRequestBuilder { confirmable: confirm, ..self.base }, ..self }),
    {
        ClientRequestBuilder { base: self.base.confirmable(confirm), ..self }
    }

    /// Sets how long to wait for the response, in milliseconds.
    pub fn timeout(self, timeout_ms: u64) -> (r: Self)
        ensures
            r == (ClientRequestBuilder { timeout_ms, ..self }),
    {
        ClientRequestBuilder { timeout_ms, ..self }
    }

    /// The request for the transport: the built request, its peer and its
    /// timeout.
    pub fn build(self) -> (r: ClientRequest)
        ensures
            r.peer == self.peer,
            r.timeout_ms == self.timeout_ms,
            r.request == (CoapRequest {
                method: self.base.method,
                path: self.base.path,
                queries: self.base.queries,
                content_format: self.base.content_format,
                accept: self.base.accept,
                confirmable: self.base.confirmable,
                payload: self.base.payload,
            }),
    {
        ClientRequest { peer: self.peer, request: self.base.build(), timeout_ms: self.timeout_ms }
    }
}

/// What came back while a request waited for its response.
pub enum WaitOutcome {
    /// The transport ended the exchange with this result.
    Delivered(Result<CoapResponse, TransportError>),
    /// The transport dropped the exchange without a result.
    ChannelClosed,
    /// The timeout passed first.
    TimedOut,
}

/// The caller's result for what came back: the response, the transport's
/// error, `ChannelClosed` or `Timeout`.
pub fn request_result(outcome: WaitOutcome) -> (r: Result<CoapResponse, ClientError>)
    ensures
        match outcome {
            WaitOutcome::Delivered(Ok(resp)) => r == Ok::<CoapResponse, ClientError>(resp),
            WaitOutcome::Delivered(Err(e)) => r == Err::<CoapResponse, ClientError>(ClientError::Transport(e)),
            WaitOutcome::ChannelClosed => r == Err::<CoapResponse, ClientError>(ClientError::ChannelClosed),
            WaitOutcome::TimedOut => r == Err::<CoapResponse, ClientError>(ClientError::Timeout),
        },
{
    match outcome {
        WaitOutcome::Delivered(Ok(resp)) => Ok(resp),
        WaitOutcome::Delivered(Err(e)) => Err(ClientError::Transport(e)),
        WaitOutcome::ChannelClosed => Err(ClientError::ChannelClosed),
        WaitOutcome::TimedOut => Err(ClientError::Timeout),
    }
}

} // verus!
