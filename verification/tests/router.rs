use coapable::codes::{RequestType, ResponseType};
use coapable::exchange::PeerAddr;
use coapable::handler::HandlerRequest;
use coapable::message::{CoapRequest, CoapResponse, CoapResponseBuilder};
use coapable::router::{get, post, MethodHandlers, Routed, Router};

type Handler = fn(&HandlerRequest) -> CoapResponse;

fn peer() -> PeerAddr {
    PeerAddr { ip: 0x7f00_0001, ipv6: false, port: 5683 }
}

fn make_request(method: RequestType, path: &str) -> CoapRequest {
    CoapRequest::new(method).path(path).build()
}

fn dispatch(router: &Router<Handler>, req: CoapRequest) -> CoapResponse {
    match router.prepare(req, peer()) {
        Routed::Respond(resp) => resp,
        Routed::Call(h, hr) => h(&hr),
    }
}

fn handle_temp(_req: &HandlerRequest) -> CoapResponse {
    CoapResponseBuilder::new(ResponseType::Content, vec![]).payload(b"22.5").build()
}

fn handle_created(_req: &HandlerRequest) -> CoapResponse {
    CoapResponse::new(ResponseType::Created).build()
}

fn handle_param(req: &HandlerRequest) -> CoapResponse {
    let mut body = Vec::new();
    for (k, v) in &req.ctx.params {
        body.extend_from_slice(k.as_bytes());
        body.push(b'=');
        body.extend_from_slice(v.as_bytes());
        body.push(b';');
    }
    CoapResponseBuilder::new(ResponseType::Content, vec![]).payload(&body).build()
}

#[test]
fn routes_get_request() {
    let router: Router<Handler> = Router::new().route("/sensors/temp", get(handle_temp as Handler));
    let resp = dispatch(&router, make_request(RequestType::Get, "/sensors/temp"));
    assert_eq!(resp.status(), ResponseType::Content);
    assert_eq!(resp.payload(), b"22.5");
}

#[test]
fn returns_not_found_for_unknown_path() {
    let router: Router<Handler> = Router::new().route("/known", get(handle_temp as Handler));
    let resp = dispatch(&router, make_request(RequestType::Get, "/unknown"));
    assert_eq!(resp.status(), ResponseType::NotFound);
}

#[test]
fn returns_method_not_allowed() {
    let router: Router<Handler> = Router::new().route("/resource", get(handle_temp as Handler));
    let resp = dispatch(&router, make_request(RequestType::Post, "/resource"));
    assert_eq!(resp.status(), ResponseType::MethodNotAllowed);
}

#[test]
fn chains_multiple_methods() {
    let router: Router<Handler> =
        Router::new().route("/lights", get(handle_temp as Handler).post(handle_created as Handler));
    assert_eq!(dispatch(&router, make_request(RequestType::Get, "/lights")).status(), ResponseType::Content);
    assert_eq!(dispatch(&router, make_request(RequestType::Post, "/lights")).status(), ResponseType::Created);
}

#[test]
fn registering_a_path_twice_merges_methods() {
    let router: Router<Handler> = Router::new()
        .route("/lights", get(handle_temp as Handler))
        .route("lights/", post(handle_created as Handler));
    assert_eq!(dispatch(&router, make_request(RequestType::Get, "/lights")).status(), ResponseType::Content);
    assert_eq!(dispatch(&router, make_request(RequestType::Post, "/lights")).status(), ResponseType::Created);
    assert_eq!(dispatch(&router, make_request(RequestType::Put, "/lights")).status(), ResponseType::MethodNotAllowed);
}

#[test]
fn path_parameters_are_bound() {
    let router: Router<Handler> = Router::new().route("/devices/:id/state/:key", get(handle_param as Handler));
    let resp = dispatch(&router, make_request(RequestType::Get, "/devices/abc123/state/power"));
    assert_eq!(resp.payload(), b"id=abc123;key=power;");
    assert_eq!(dispatch(&router, make_request(RequestType::Get, "/devices/abc123")).status(), ResponseType::NotFound);
}

#[test]
fn static_segment_wins_over_parameter() {
    let router: Router<Handler> = Router::new()
        .route("/devices/:id", get(handle_param as Handler))
        .route("/devices/all", get(handle_temp as Handler));
    assert_eq!(dispatch(&router, make_request(RequestType::Get, "/devices/all")).payload(), b"22.5");
    assert_eq!(dispatch(&router, make_request(RequestType::Get, "/devices/x")).payload(), b"id=x;");
}

#[test]
fn lookup_reports_the_node_and_parameters() {
    let router: Router<u8> = Router::new().route("/a/:b", get(1u8));
    let segs = vec!["a".to_string(), "zz".to_string()];
    let (_, params) = router.lookup(&segs).unwrap();
    assert_eq!(params, vec![("b".to_string(), "zz".to_string())]);
    assert!(router.lookup(&vec!["a".to_string()]).is_none());
}

#[test]
fn method_handlers_slots() {
    let mut h: MethodHandlers<u8> = MethodHandlers::new();
    assert!(!h.has_any());
    h.merge(MethodHandlers { get: Some(1), post: None, put: Some(3), delete: None });
    h.merge(MethodHandlers { get: Some(9), post: None, put: None, delete: None });
    assert!(h.has_any());
    assert_eq!(h.retrieve_handler(RequestType::Get), Some(&9));
    assert_eq!(h.retrieve_handler(RequestType::Put), Some(&3));
    assert_eq!(h.retrieve_handler(RequestType::Post), None);
    assert_eq!(h.retrieve_handler(RequestType::Fetch), None);
}

#[test]
fn handler_request_carries_the_peer() {
    let router: Router<u8> = Router::new().route("/x", post(5u8));
    match router.prepare(make_request(RequestType::Post, "/x"), peer()) {
        Routed::Call(h, hr) => {
            assert_eq!(*h, 5);
            assert_eq!(hr.ctx.peer, peer());
            assert!(hr.ctx.params.is_empty());
            assert_eq!(hr.request.path(), "/x");
        },
        Routed::Respond(_) => panic!("expected a handler"),
    }
}

#[test]
fn repeated_parameter_name_keeps_the_later_value() {
    let router: Router<u8> = Router::new().route("/:id/x/:id", get(1u8));
    let segs = vec!["first".to_string(), "x".to_string(), "second".to_string()];
    let (_, params) = router.lookup(&segs).unwrap();
    assert_eq!(params, vec![("id".to_string(), "second".to_string())]);
    match router.prepare(make_request(RequestType::Get, "/first/x/second"), peer()) {
        Routed::Call(_, hr) => assert_eq!(hr.ctx.params, vec![("id".to_string(), "second".to_string())]),
        Routed::Respond(_) => panic!("expected a handler"),
    }
}

#[test]
fn routing_same_segments_twice_merges_methods() {
    let router: Router<u8> = Router::new()
        .route("/a/b", get(1u8).post(2u8))
        .route("a//b/", post(3u8).put(4u8));
    let ids: Vec<Option<u8>> = [RequestType::Get, RequestType::Post, RequestType::Put, RequestType::Delete]
        .iter()
        .map(|meth| match router.prepare(make_request(*meth, "/a/b"), peer()) {
            Routed::Call(h, _) => Some(*h),
            Routed::Respond(_) => None,
        })
        .collect();
    assert_eq!(ids, vec![Some(1), Some(3), Some(4), None]);
}

#[test]
fn existing_parameter_child_keeps_its_first_name() {
    let router: Router<u8> = Router::new().route("/u/:id", get(1u8)).route("/u/:name/p", get(2u8));
    let (_, params) = router.lookup(&vec!["u".to_string(), "7".to_string(), "p".to_string()]).unwrap();
    assert_eq!(params, vec![("id".to_string(), "7".to_string())]);
}
