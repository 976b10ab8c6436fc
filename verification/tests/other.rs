use coapable::client::{request_result, ClientError, ClientRequestBuilder, WaitOutcome, DEFAULT_REQUEST_TIMEOUT_MS};
use coapable::codes::{ContentFormat, MessageClass, MessageType, RequestType, ResponseType};
use coapable::error::{Error, ServerError};
use coapable::exchange::{PeerAddr, TransportError};
use coapable::handler::{Extensions, RequestContext, SecurityContext};
use coapable::message::{CoapResponse, MessageError};
use coapable::oscore::{assemble_outer, ContextStore, OscoreError, RequestIds};
use coapable::wire::Message;

fn peer() -> PeerAddr {
    PeerAddr { ip: 0x7f00_0001, ipv6: false, port: 5683 }
}

#[test]
fn lib_error_constructor() {
    let e = Error::Transport(TransportError::Io(std::io::Error::from_raw_os_error(22)));
    println!("error: {:?}", e);
    let s = Error::Server(ServerError::EndpointClosed);
    println!("error: {:?}", s);
}

#[derive(Debug, PartialEq)]
struct Tenant(u32);

#[test]
fn extensions_store_one_value_per_type() {
    let mut ext = Extensions::new();
    assert!(ext.get::<Tenant>().is_none());
    ext.insert(Tenant(1));
    ext.insert(7u8);
    assert_eq!(ext.get::<Tenant>(), Some(&Tenant(1)));
    assert_eq!(ext.get::<u8>(), Some(&7));
    ext.insert(Tenant(2));
    assert_eq!(ext.get::<Tenant>(), Some(&Tenant(2)));
    if let Some(t) = ext.get_mut::<Tenant>() {
        t.0 = 3;
    }
    assert_eq!(ext.get::<Tenant>(), Some(&Tenant(3)));
    assert_eq!(ext.remove::<Tenant>(), Some(Tenant(3)));
    assert_eq!(ext.remove::<Tenant>(), None);
    assert!(ext.get_mut::<Tenant>().is_none());
    assert_eq!(ext.get::<u8>(), Some(&7));
    assert!(Extensions::default().get::<u8>().is_none());
}

#[test]
fn request_context_starts_empty() {
    let ctx = RequestContext::new(peer());
    assert_eq!(ctx.peer, peer());
    assert!(ctx.params.is_empty());
    assert_eq!(ctx.security, SecurityContext::Unsecured);
    assert!(ctx.extensions.get::<u32>().is_none());
}

#[test]
fn client_builder_builds_the_request() {
    let cr = ClientRequestBuilder::new(peer(), RequestType::Get)
        .path("/search")
        .query("type", "sensor")
        .query("limit", "10")
        .confirmable(false)
        .build();
    assert_eq!(cr.peer, peer());
    assert_eq!(cr.timeout_ms, DEFAULT_REQUEST_TIMEOUT_MS);
    assert_eq!(cr.request.path(), "/search");
    assert_eq!(cr.request.queries(), Some(&vec!["type=sensor".to_string(), "limit=10".to_string()]));
    assert!(!cr.request.confirmable());

    let post = ClientRequestBuilder::new(peer(), RequestType::Post)
        .path("/data")
        .content_format(ContentFormat::ApplicationJSON)
        .accept(ContentFormat::TextPlain)
        .payload(b"{\"value\":42}".to_vec())
        .timeout(250)
        .build();
    assert_eq!(post.request.payload(), b"{\"value\":42}");
    assert_eq!(post.request.content_format(), Some(ContentFormat::ApplicationJSON));
    assert!(post.request.confirmable());
    assert_eq!(post.timeout_ms, 250);
}

#[test]
fn client_results_for_each_outcome() {
    let ok = request_result(WaitOutcome::Delivered(Ok(CoapResponse::new(ResponseType::Content).build())));
    assert_eq!(ok.ok().unwrap().status(), ResponseType::Content);
    assert!(matches!(
        request_result(WaitOutcome::Delivered(Err(TransportError::Reset))),
        Err(ClientError::Transport(TransportError::Reset))
    ));
    assert!(matches!(request_result(WaitOutcome::ChannelClosed), Err(ClientError::ChannelClosed)));
    assert!(matches!(request_result(WaitOutcome::TimedOut), Err(ClientError::Timeout)));
    let m = ClientError::Message(MessageError::NotAResponse);
    println!("{:?}", m);
}

#[test]
fn oscore_request_ids_by_token() {
    let mut ids: RequestIds<u32> = RequestIds::new();
    assert_eq!(ids.lookup(&[1]), Err(OscoreError::RequestNotFound));
    ids.record(vec![1], 10);
    ids.record(vec![2], 20);
    ids.record(vec![1], 11);
    assert_eq!(ids.lookup(&[1]), Ok(&11));
    assert_eq!(ids.lookup(&[2]), Ok(&20));
}

#[test]
fn oscore_contexts_by_peer() {
    let mut store: ContextStore<Vec<u8>> = ContextStore::new();
    assert!(matches!(store.context_mut(&peer()), Err(OscoreError::ContextNotFound)));
    store.add(peer(), vec![1]);
    store.context_mut(&peer()).ok().unwrap().push(2);
    assert_eq!(store.context_mut(&peer()).ok().unwrap().clone(), vec![1, 2]);
    store.add(peer(), vec![9]);
    assert_eq!(store.context_mut(&peer()).ok().unwrap().clone(), vec![9]);
}

#[test]
fn oscore_outer_message_assembly() {
    let inner = Message {
        message_type: MessageType::Confirmable,
        code: MessageClass::Request(RequestType::Get),
        message_id: 0x0102,
        token: vec![0xaa],
        options: vec![],
        payload: vec![],
    };
    // Body: an OSCORE option (number 9, empty value) then payload marker and ciphertext.
    let body = [0x90, 0xff, 0x01, 0x02, 0x03];
    let outer = assemble_outer(&inner, 0x02, &body).ok().unwrap();
    assert_eq!(outer.code, MessageClass::Request(RequestType::Post));
    assert_eq!(outer.message_id, 0x0102);
    assert_eq!(outer.token, vec![0xaa]);
    assert_eq!(outer.options, vec![(9u16, Vec::<u8>::new())]);
    assert_eq!(outer.payload, vec![1, 2, 3]);
    // An option length of 15 is reserved: not a valid message.
    assert_eq!(assemble_outer(&inner, 0x02, &[0x0f]).err(), Some(OscoreError::PacketDecodingFailed));
}

#[test]
fn client_builder_path_replaces_and_waits_thirty_seconds() {
    let cr = ClientRequestBuilder::new(peer(), RequestType::Get).path("/a").path("/b").build();
    assert_eq!(cr.request.path(), "/b");
    assert_eq!(cr.timeout_ms, 30_000);
    assert_eq!(DEFAULT_REQUEST_TIMEOUT_MS, 30_000);
}

#[test]
fn oscore_outer_message_keeps_the_header() {
    let inner = Message {
        message_type: MessageType::NonConfirmable,
        code: MessageClass::Request(RequestType::Put),
        message_id: 0xbeef,
        token: vec![1, 2, 3, 4, 5, 6, 7, 8],
        options: vec![],
        payload: vec![],
    };
    let outer = assemble_outer(&inner, 0x02, &[0xff, 0x09]).ok().unwrap();
    assert_eq!(outer.message_type, MessageType::NonConfirmable);
    assert_eq!(outer.message_id, 0xbeef);
    assert_eq!(outer.token, vec![1, 2, 3, 4, 5, 6, 7, 8]);
    assert_eq!(outer.payload, vec![0x09]);
    let long = Message { token: vec![0; 9], ..inner };
    assert_eq!(assemble_outer(&long, 0x02, &[0xff, 0x09]).err(), Some(OscoreError::PacketDecodingFailed));
}
