//! Routing of requests to handlers: a trie of path segments whose nodes hold
//! one handler slot per method. A segment written `:name` matches any
//! segment and binds it to `name`; a static child is preferred to the
//! parameter child, without backtracking.

use vstd::prelude::*;
use crate::codes::{RequestType, ResponseType};
use crate::exchange::PeerAddr;
use crate::handler::{HandlerRequest, RequestContext};
use crate::message::{CoapRequest, CoapResponse};
use crate::path::{path_segments, split_path};

verus! {

/// The handlers of one route: one slot per method.
pub struct MethodHandlers<H> {
    pub get: Option<H>,
    pub post: Option<H>,
    pub put: Option<H>,
    pub delete: Option<H>,
}

/// No handler at all.
pub open spec fn no_handlers<H>() -> MethodHandlers<H> {
    MethodHandlers { get: None, post: None, put: None, delete: None }
}

/// `a` with each slot that `b` fills taken from `b`.
pub open spec fn merged<H>(a: MethodHandlers<H>, b: MethodHandlers<H>) -> MethodHandlers<H> {
    MethodHandlers {
        get: if b.get is Some { b.get } else { a.get },
        post: if b.post is Some { b.post } else { a.post },
        put: if b.put is Some { b.put } else { a.put },
        delete: if b.delete is Some { b.delete } else { a.delete },
    }
}

/// The handler for `method`; methods other than GET, POST, PUT and DELETE
/// have none.
pub open spec fn handler_for<H>(h: MethodHandlers<H>, method: RequestType) -> Option<H> {
    match method {
        RequestType::Get => h.get,
        RequestType::Post => h.post,
        RequestType::Put => h.put,
        RequestType::Delete => h.delete,
        _ => None,
    }
}

/// Whether some slot is filled.
pub open spec fn has_handlers<H>(h: MethodHandlers<H>) -> bool {
    h.get is Some || h.post is Some || h.put is Some || h.delete is Some
}

impl<H> MethodHandlers<H> {
    /// No handler at all.
    pub fn new() -> (r: Self)
        ensures
            r == no_handlers::<H>(),
    {
        MethodHandlers { get: None, post: None, put: None, delete: None }
    }

    /// The handler for `method`, if any.
    pub fn retrieve_handler(&self, method: RequestType) -> (r: Option<&H>)
        ensures
            r is Some <==> handler_for(*self, method) is Some,
            r matches Some(h) ==> handler_for(*self, method) == Some(*h),
    {
        match method {
            RequestType::Get => self.get.as_ref(),
            RequestType::Post => self.post.as_ref(),
            RequestType::Put => self.put.as_ref(),
            RequestType::Delete => self.delete.as_ref(),
            _ => None,
        }
    }

    /// Whether some slot is filled.
    pub fn has_any(&self) -> (r: bool)
        ensures
            r == has_handlers(*self),
    {
        self.get.is_some() || self.post.is_some() || self.put.is_some() || self.delete.is_some()
    }

    /// Takes over each slot that `other` fills.
    pub fn merge(&mut self, other: MethodHandlers<H>)
        ensures
            *final(self) == merged(*old(self), other),
    {
        let MethodHandlers { get, post, put, delete } = other;
        if get.is_some() {
            self.get = get;
        }
        if post.is_some() {
            self.post = post;
        }
        if put.is_some() {
            self.put = put;
        }
        if delete.is_some() {
            self.delete = delete;
        }
    }
}

/// Handlers for one route, gathered method by method.
pub struct MethodRouter<H> {
    handlers: MethodHandlers<H>,
}

impl<H> MethodRouter<H> {
    /// The handlers gathered so far.
    pub closed spec fn slots(&self) -> MethodHandlers<H> {
        self.handlers
    }

    /// Sets the GET handler.
    pub fn get(self, handler: H) -> (r: Self)
        ensures
            r.slots() == (MethodHandlers { get: Some(handler), ..self.slots() }),
    {
        MethodRouter { handlers: MethodHandlers { get: Some(handler), ..self.handlers } }
    }

    /// Sets the POST handler.
    pub fn post(self, handler: H) -> (r: Self)
        ensures
            r.slots() == (MethodHandlers { post: Some(handler), ..self.slots() }),
    {
        MethodRouter { handlers: MethodHandlers { post: Some(handler), ..self.handlers } }
    }

    /// Sets the PUT handler.
    pub fn put(self, handler: H) -> (r: Self)
        ensures
            r.slots() == (MethodHandlers { put: Some(handler), ..self.slots() }),
    {
        MethodRouter { handlers: MethodHandlers { put: Some(handler), ..self.handlers } }
    }

    /// Sets the DELETE handler.
    pub fn delete(self, handler: H) -> (r: Self)
        ensures
            r.slots() == (MethodHandlers { delete: Some(handler), ..self.slots() }),
    {
        MethodRouter { handlers: MethodHandlers { delete: Some(handler), ..self.handlers } }
    }
}

/// A method router with a GET handler.
pub fn get<H>(handler: H) -> (r: MethodRouter<H>)
    ensures
        r.slots() == (MethodHandlers { get: Some(handler), ..no_handlers::<H>() }),
{
    MethodRouter { handlers: MethodHandlers { get: Some(handler), post: None, put: None, delete: None } }
}

/// A method router with a POST handler.
pub fn post<H>(handler: H) -> (r: MethodRouter<H>)
    ensures
        r.slots() == (MethodHandlers { post: Some(handler), ..no_handlers::<H>() }),
{
    MethodRouter { handlers: MethodHandlers { get: None, post: Some(handler), put: None, delete: None } }
}

/// A method router with a PUT handler.
pub fn put<H>(handler: H) -> (r: MethodRouter<H>)
    ensures
        r.slots() == (MethodHandlers { put: Some(handler), ..no_handlers::<H>() }),
{
    MethodRouter { handlers: MethodHandlers { get: None, post: None, put: Some(handler), delete: None } }
}

/// A method router with a DELETE handler.
pub fn delete<H>(handler: H) -> (r: MethodRouter<H>)
    ensures
        r.slots() == (MethodHandlers { delete: Some(handler), ..no_handlers::<H>() }),
{
    MethodRouter { handlers: MethodHandlers { get: None, post: None, put: None, delete: Some(handler) } }
}

/// A trie node as plain values: static children (segment and node index),
/// the parameter child (name and node index), and the handlers.
pub struct NodeView<H> {
    pub children: Seq<(Seq<char>, int)>,
    pub param: Option<(Seq<char>, int)>,
    pub handlers: MethodHandlers<H>,
}

/// A node with no child and no handler.
pub open spec fn empty_node<H>() -> NodeView<H> {
    NodeView { children: Seq::empty(), param: None, handlers: no_handlers() }
}

/// Whether a route segment is a parameter (`:name`).
pub open spec fn is_param_segment(p: Seq<char>) -> bool {
    p.len() > 0 && p[0] == ':'
}

/// The index among `ch` of the child for segment `s`, if any.
pub open spec fn child_index(ch: Seq<(Seq<char>, int)>, s: Seq<char>) -> Option<int> {
    if exists|j: int| 0 <= j < ch.len() && ch[j].0 == s {
        Some(choose|j: int| 0 <= j < ch.len() && ch[j].0 == s)
    } else {
        None
    }
}

/// The trie `a` after the route `pats` was registered below node `i` with
/// handlers `mh`: each segment follows the existing child (for a parameter,
/// the parameter child whatever its name) or adds a new node last; the
/// handlers are merged into the node reached.
pub open spec fn insert_route<H>(a: Seq<NodeView<H>>, i: int, pats: Seq<Seq<char>>, mh: MethodHandlers<H>) -> Seq<NodeView<H>>
    decreases pats.len(),
{
    if pats.len() == 0 {
        a.update(i, NodeView { handlers: merged(a[i].handlers, mh), ..a[i] })
    } else {
        let p = pats[0];
        let rest = pats.skip(1);
        if is_param_segment(p) {
            match a[i].param {
                Some(pc) => insert_route(a, pc.1, rest, mh),
                None => insert_route(
                    a.update(i, NodeView { param: Some((p.skip(1), a.len() as int)), ..a[i] }).push(empty_node()),
                    a.len() as int,
                    rest,
                    mh,
                ),
            }
        } else {
            match child_index(a[i].children, p) {
                Some(j) => insert_route(a, a[i].children[j].1, rest, mh),
                None => insert_route(
                    a.update(i, NodeView { children: a[i].children.push((p, a.len() as int)), ..a[i] }).push(empty_node()),
                    a.len() as int,
                    rest,
                    mh,
                ),
            }
        }
    }
}

/// Matching the segments `segs` below node `i` of trie `a`: each segment
/// goes to the static child of that name, or else binds the parameter
/// child's name. The result is the node reached, if it has a handler, and
/// the parameters bound, in order.
pub open spec fn lookup_route<H>(a: Seq<NodeView<H>>, i: int, segs: Seq<Seq<char>>) -> Option<(int, Seq<(Seq<char>, Seq<char>)>)>
    decreases segs.len(),
{
    if segs.len() == 0 {
        if has_handlers(a[i].handlers) { Some((i, Seq::empty())) } else { None }
    } else {
        match child_index(a[i].children, segs[0]) {
            Some(j) => lookup_route(a, a[i].children[j].1, segs.skip(1)),
            None => match a[i].param {
                Some(pc) => match lookup_route(a, pc.1, segs.skip(1)) {
                    Some(found) => Some((found.0, seq![(pc.0, segs[0])] + found.1)),
                    None => None,
                },
                None => None,
            },
        }
    }
}

/// A trie node.
struct Node<H> {
    children: Vec<(String, usize)>,
    param: Option<(String, usize)>,
    handlers: MethodHandlers<H>,
}

/// The plain values of a node.
spec fn node_view<H>(n: Node<H>) -> NodeView<H> {
    NodeView {
        children: n.children@.map_values(|c: (String, usize)| (c.0@, c.1 as int)),
        param: match n.param {
            Some(pc) => Some((pc.0@, pc.1 as int)),
            None => None,
        },
        handlers: n.handlers,
    }
}

/// A routing trie; node 0 is the root.
pub struct Router<H> {
    nodes: Vec<Node<H>>,
}

impl<H> View for Router<H> {
    type V = Seq<NodeView<H>>;

    closed spec fn view(&self) -> Seq<NodeView<H>> {
        self.nodes@.map_values(|n: Node<H>| node_view(n))
    }
}

/// A trie whose every child comes after its parent, and whose static
/// children of a node have distinct segments.
pub open spec fn trie_wf<H>(a: Seq<NodeView<H>>) -> bool {
    &&& a.len() > 0
    &&& forall|i: int, j: int| 0 <= i < a.len() && 0 <= j < a[i].children.len() ==> i < #[trigger] a[i].children[j].1 < a.len()
    &&& forall|i: int| 0 <= i < a.len() && (#[trigger] a[i].param) is Some ==> i < (a[i].param->0).1 < a.len()
    &&& forall|i: int, j: int, k: int| 0 <= i < a.len() && 0 <= j < a[i].children.len() && 0 <= k < a[i].children.len() && j != k
        ==> #[trigger] a[i].children[j].0 != #[trigger] a[i].children[k].0
}

/// The result of routing a request.
pub enum Routed<'a, H> {
    /// Answer with this response (no route, or no handler for the method).
    Respond(CoapResponse),
    /// Call this handler with this request.
    Call(&'a H, HandlerRequest),
}

/// An empty response with the given code.
pub open spec fn bare_response(resp: CoapResponse, code: ResponseType) -> bool {
    &&& resp.response_type == code
    &&& resp.token@.len() == 0
    &&& resp.content_format is None
    &&& resp.payload@.len() == 0
}

/// The parameters as plain values.
pub open spec fn params_view(p: Seq<(String, String)>) -> Seq<(Seq<char>, Seq<char>)> {
    p.map_values(|q: (String, String)| (q.0@, q.1@))
}

/// The bindings as a map from name to value, a later binding of a name
/// replacing an earlier one.
pub open spec fn param_map(p: Seq<(Seq<char>, Seq<char>)>) -> Map<Seq<char>, Seq<char>>
    decreases p.len(),
{
    if p.len() == 0 {
        Map::empty()
    } else {
        param_map(p.drop_last()).insert(p.last().0, p.last().1)
    }
}

/// No name occurs twice among the bindings.
pub open spec fn names_distinct(p: Seq<(Seq<char>, Seq<char>)>) -> bool {
    forall|i: int, j: int| 0 <= i < p.len() && 0 <= j < p.len() && i != j ==> #[trigger] p[i].0 != #[trigger] p[j].0
}

/// With distinct names, giving the binding at `i` another value is
/// binding its name to that value last.
proof fn lemma_param_map_update(p: Seq<(Seq<char>, Seq<char>)>, i: int, v: Seq<char>)
    requires
        names_distinct(p),
        0 <= i < p.len(),
    ensures
        param_map(p.update(i, (p[i].0, v))) == param_map(p).insert(p[i].0, v),
    decreases p.len(),
{
    let q = p.update(i, (p[i].0, v));
    if i == p.len() - 1 {
        assert(q.drop_last() =~= p.drop_last());
        assert(param_map(q) =~= param_map(p).insert(p[i].0, v));
    } else {
        let d = p.drop_last();
        assert(q.drop_last() =~= d.update(i, (d[i].0, v)));
        assert(names_distinct(d)) by {
            assert forall|x: int, y: int| 0 <= x < d.len() && 0 <= y < d.len() && x != y implies #[trigger] d[x].0 != #[trigger] d[y].0 by {
                assert(d[x] == p[x]);
                assert(d[y] == p[y]);
            }
        }
        lemma_param_map_update(d, i, v);
        assert(p.last().0 != p[i].0) by {
            assert(p.last() == p[p.len() - 1]);
        }
        assert(q.last() == p.last());
        assert(param_map(q) =~= param_map(p).insert(p[i].0, v));
    }
}

/// With distinct names, each binding is what the map holds for its name,
/// and the map holds no other name.
pub proof fn lemma_param_map_entries(p: Seq<(Seq<char>, Seq<char>)>)
    requires
        names_distinct(p),
    ensures
        forall|i: int| 0 <= i < p.len() ==> #[trigger] param_map(p)[p[i].0] == p[i].1,
        forall|n: Seq<char>| #[trigger] param_map(p).dom().contains(n) <==> exists|i: int| 0 <= i < p.len() && p[i].0 == n,
    decreases p.len(),
{
    if p.len() > 0 {
        let d = p.drop_last();
        assert(names_distinct(d)) by {
            assert forall|x: int, y: int| 0 <= x < d.len() && 0 <= y < d.len() && x != y implies #[trigger] d[x].0 != #[trigger] d[y].0 by {
                assert(d[x] == p[x]);
                assert(d[y] == p[y]);
            }
        }
        lemma_param_map_entries(d);
        assert forall|i: int| 0 <= i < p.len() implies #[trigger] param_map(p)[p[i].0] == p[i].1 by {
            if i < p.len() - 1 {
                assert(d[i] == p[i]);
                assert(param_map(d)[d[i].0] == d[i].1);
                assert(p[i].0 != p[p.len() - 1].0);
            }
        }
        assert forall|n: Seq<char>| #[trigger] param_map(p).dom().contains(n) <==> exists|i: int| 0 <= i < p.len() && p[i].0 == n by {
            let last = p.len() - 1;
            if n == p[last].0 {
                assert(p[last].0 == n);
            } else if param_map(p).dom().contains(n) {
                assert(param_map(d).dom().contains(n));
                let i = choose|i: int| 0 <= i < d.len() && d[i].0 == n;
                assert(p[i] == d[i]);
            }
            if exists|i: int| 0 <= i < p.len() && p[i].0 == n {
                let i = choose|i: int| 0 <= i < p.len() && p[i].0 == n;
                if i < last {
                    assert(d[i] == p[i]);
                    assert(param_map(d).dom().contains(n));
                }
            }
        }
    }
}

/// A name bound more than once holds the value of its last binding: where
/// `p[j]` binds `n` and no later binding does, the map gives `n` that
/// value.
pub proof fn law_later_binding_wins(p: Seq<(Seq<char>, Seq<char>)>, j: int)
    requires
        0 <= j < p.len(),
        forall|k: int| j < k < p.len() ==> #[trigger] p[k].0 != p[j].0,
    ensures
        param_map(p).dom().contains(p[j].0),
        param_map(p)[p[j].0] == p[j].1,
    decreases p.len(),
{
    if j < p.len() - 1 {
        let d = p.drop_last();
        assert(d[j] == p[j]);
        assert forall|k: int| j < k < d.len() implies #[trigger] d[k].0 != d[j].0 by {
            assert(d[k] == p[k]);
        }
        law_later_binding_wins(d, j);
        assert(p[p.len() - 1].0 != p[j].0);
    }
}

/// Binds `name` to `value` in `params`: an earlier binding of the name
/// takes the value, else the binding is added last.
fn bind_param(params: &mut Vec<(String, String)>, name: &String, value: &String)
    requires
        names_distinct(params_view(old(params)@)),
    ensures
        names_distinct(params_view(final(params)@)),
        param_map(params_view(final(params)@)) == param_map(params_view(old(params)@)).insert(name@, value@),
{
    let ghost pv = params_view(params@);
    let mut q: usize = 0;
    while q < params.len()
        invariant
            q <= params@.len(),
            params@ == old(params)@,
            pv == params_view(params@),
            names_distinct(pv),
            forall|x: int| 0 <= x < q ==> #[trigger] pv[x].0 != name@,
        decreases params@.len() - q,
    {
        if params[q].0 == *name {
            let pair = (params[q].0.clone(), value.clone());
            params.set(q, pair);
            proof {
                assert(params_view(params@) =~= pv.update(q as int, (pv[q as int].0, value@)));
                lemma_param_map_update(pv, q as int, value@);
                let u = params_view(params@);
                assert forall|x: int, y: int| 0 <= x < u.len() && 0 <= y < u.len() && x != y implies #[trigger] u[x].0 != #[trigger] u[y].0 by {
                    assert(u[x].0 == pv[x].0);
                    assert(u[y].0 == pv[y].0);
                }
            }
            return;
        }
        q = q + 1;
    }
    params.push((name.clone(), value.clone()));
    proof {
        let u = params_view(params@);
        assert(u =~= pv.push((name@, value@)));
        assert(u.drop_last() =~= pv);
        assert forall|x: int, y: int| 0 <= x < u.len() && 0 <= y < u.len() && x != y implies #[trigger] u[x].0 != #[trigger] u[y].0 by {
            if x < pv.len() {
                assert(u[x] == pv[x]);
            }
            if y < pv.len() {
                assert(u[y] == pv[y]);
            }
        }
    }
}

/// The name of a parameter segment `:name`, or `None` for a static segment.
fn param_name_of(seg: &str) -> (r: Option<String>)
    ensures
        r is Some <==> is_param_segment(seg@),
        r matches Some(name) ==> name@ == seg@.skip(1),
{
    let mut name = String::new();
    let mut is_param = false;
    let mut first = true;
    for c in it: seg.chars()
        invariant
            it.seq() == seg@,
            first == (it.index() == 0),
            it.index() > 0 ==> is_param == (seg@[0] == ':'),
            it.index() == 0 ==> !is_param,
            is_param ==> name@ == seg@.subrange(1, it.index() as int),
            !is_param ==> name@ == Seq::<char>::empty(),
    {
        let ghost k = it.index() as int;
        if first {
            first = false;
            if c == ':' {
                is_param = true;
                proof {
                    assert(name@ =~= seg@.subrange(1, 1));
                }
            }
        } else if is_param {
            crate::path::push_char(&mut name, c);
            proof {
                assert(name@ =~= seg@.subrange(1, k + 1));
            }
        }
    }
    if is_param {
        assert(seg@.subrange(1, seg@.len() as int) =~= seg@.skip(1));
        Some(name)
    } else {
        None
    }
}

/// The index of the child for segment `seg`, if any.
fn find_child(children: &Vec<(String, usize)>, seg: &String) -> (r: Option<usize>)
    ensures
        r matches Some(j) ==> j < children@.len() && children@[j as int].0@ == seg@,
        r is None ==> forall|j: int| 0 <= j < children@.len() ==> children@[j].0@ != seg@,
{
    let mut j: usize = 0;
    while j < children.len()
        invariant
            j <= children@.len(),
            forall|q: int| 0 <= q < j ==> children@[q].0@ != seg@,
        decreases children@.len() - j,
    {
        if children[j].0 == *seg {
            return Some(j);
        }
        j = j + 1;
    }
    None
}

/// With distinct segments, the child found is the one `child_index` names.
proof fn lemma_child_index(ch: Seq<(Seq<char>, int)>, s: Seq<char>, j: int)
    requires
        forall|a: int, b: int| 0 <= a < ch.len() && 0 <= b < ch.len() && a != b ==> #[trigger] ch[a].0 != #[trigger] ch[b].0,
        0 <= j < ch.len(),
        ch[j].0 == s,
    ensures
        child_index(ch, s) == Some(j),
{
}

impl<H> Router<H> {
    /// The router's invariant.
    pub closed spec fn wf(&self) -> bool {
        trie_wf(self@)
    }

    /// A router with no route.
    pub fn new() -> (r: Self)
        ensures
            r.wf(),
            r@ == seq![empty_node::<H>()],
    {
        let mut nodes: Vec<Node<H>> = Vec::new();
        nodes.push(Node { children: Vec::new(), param: None, handlers: MethodHandlers::new() });
        let r = Router { nodes };
        proof {
            assert(node_view(r.nodes@[0]).children =~= Seq::<(Seq<char>, int)>::empty());
            assert(r@ =~= seq![empty_node::<H>()]);
        }
        r
    }
    /// Registers `method_router`'s handlers for `path` (see `insert_route`);
    /// segments are the non-empty pieces of `path` between '/'.
    pub fn route(self, path: &str, method_router: MethodRouter<H>) -> (r: Self)
        requires
            self.wf(),
        ensures
            r.wf(),
            r@ == insert_route(self@, 0, path_segments(path@), method_router.slots()),
    {
        let ghost mh = method_router.slots();
        let ghost target = insert_route(self@, 0, path_segments(path@), mh);
        let mut this = self;
        let segs = split_path(path);
        let ghost sv = segs@.map_values(|s: String| s@);
        let mut cur: usize = 0;
        let mut k: usize = 0;
        proof {
            assert(sv.skip(0) =~= sv);
        }
        while k < segs.len()
            invariant
                trie_wf(this@),
                this@.len() == this.nodes@.len(),
                cur < this.nodes@.len(),
                k <= segs@.len(),
                sv == segs@.map_values(|s: String| s@),
                insert_route(this@, cur as int, sv.skip(k as int), mh) == target,
            decreases segs@.len() - k,
        {
            let ghost a = this@;
            proof {
                assert(sv.skip(k as int)[0] == sv[k as int]);
                assert(sv.skip(k as int).skip(1) =~= sv.skip(k + 1));
                assert(a[cur as int] == node_view(this.nodes@[cur as int]));
            }
            let seg = &segs[k];
            match param_name_of(seg.as_str()) {
                Some(name) => {
                    let existing = match &this.nodes[cur].param {
                        Some(pc) => Some(pc.1),
                        None => None,
                    };
                    match existing {
                        Some(c) => {
                            cur = c;
                        },
                        None => {
                            let c = this.nodes.len();
                            this.nodes.push(Node { children: Vec::new(), param: None, handlers: MethodHandlers::new() });
                            let ghost pushed = this.nodes@;
                            let n = &mut this.nodes[cur];
                            n.param = Some((name, c));
                            proof {
                                assert(node_view(pushed[c as int]).children =~= Seq::<(Seq<char>, int)>::empty());
                                assert(this@ =~= a.update(cur as int, NodeView { param: Some((sv[k as int].skip(1), a.len() as int)), ..a[cur as int] }).push(empty_node()));
                            }
                            cur = c;
                        },
                    }
                },
                None => {
                    match find_child(&this.nodes[cur].children, seg) {
                        Some(j) => {
                            proof {
                                lemma_child_index(a[cur as int].children, sv[k as int], j as int);
                            }
                            cur = this.nodes[cur].children[j].1;
                        },
                        None => {
                            let c = this.nodes.len();
                            this.nodes.push(Node { children: Vec::new(), param: None, handlers: MethodHandlers::new() });
                            let ghost pushed = this.nodes@;
                            let ghost old_children = this.nodes@[cur as int].children@;
                            let n = &mut this.nodes[cur];
                            n.children.push((seg.clone(), c));
                            proof {
                                assert(node_view(pushed[c as int]).children =~= Seq::<(Seq<char>, int)>::empty());
                                assert(node_view(this.nodes@[cur as int]).children =~= a[cur as int].children.push((sv[k as int], a.len() as int)));
                                assert(this@ =~= a.update(cur as int, NodeView { children: a[cur as int].children.push((sv[k as int], a.len() as int)), ..a[cur as int] }).push(empty_node()));
                                assert(child_index(a[cur as int].children, sv[k as int]) is None);
                            }
                            cur = c;
                        },
                    }
                },
            }
            k = k + 1;
        }
        let ghost a = this@;
        let n = &mut this.nodes[cur];
        n.handlers.merge(method_router.handlers);
        proof {
            assert(this@ =~= a.update(cur as int, NodeView { handlers: merged(a[cur as int].handlers, mh), ..a[cur as int] }));
        }
        this
    }
    /// Matches the segments `segs` from the root (see `lookup_route`): the
    /// index of the node reached and the parameters bound, or `None`.
    pub fn lookup(&self, segs: &Vec<String>) -> (r: Option<(usize, Vec<(String, String)>)>)
        requires
            self.wf(),
        ensures
            match lookup_route(self@, 0, segs@.map_values(|s: String| s@)) {
                None => r is None,
                Some(found) => r matches Some(p) && p.0 == found.0
                    && names_distinct(params_view(p.1@))
                    && param_map(params_view(p.1@)) == param_map(found.1),
            },
            r matches Some(p) ==> p.0 < self@.len(),
    {
        let ghost a = self@;
        let ghost sv = segs@.map_values(|s: String| s@);
        let ghost whole = lookup_route(a, 0, sv);
        let mut cur: usize = 0;
        let mut params: Vec<(String, String)> = Vec::new();
        let ghost mut bound: Seq<(Seq<char>, Seq<char>)> = Seq::empty();
        let mut k: usize = 0;
        proof {
            assert(sv.skip(0) =~= sv);
            assert(params_view(params@) =~= Seq::<(Seq<char>, Seq<char>)>::empty());
            match lookup_route(a, 0, sv) {
                Some(f) => {
                    assert(Seq::<(Seq<char>, Seq<char>)>::empty() + f.1 =~= f.1);
                },
                None => {},
            }
        }
        while k < segs.len()
            invariant
                trie_wf(a),
                a == self@,
                a.len() == self.nodes@.len(),
                cur < a.len(),
                k <= segs@.len(),
                sv == segs@.map_values(|s: String| s@),
                whole == lookup_route(a, 0, sv),
                whole == (match lookup_route(a, cur as int, sv.skip(k as int)) {
                    Some(f) => Some((f.0, bound + f.1)),
                    None => None,
                }),
                names_distinct(params_view(params@)),
                param_map(params_view(params@)) == param_map(bound),
            decreases segs@.len() - k,
        {
            proof {
                assert(sv.skip(k as int)[0] == sv[k as int]);
                assert(sv.skip(k as int).skip(1) =~= sv.skip(k + 1));
                assert(a[cur as int] == node_view(self.nodes@[cur as int]));
            }
            let seg = &segs[k];
            match find_child(&self.nodes[cur].children, seg) {
                Some(j) => {
                    proof {
                        lemma_child_index(a[cur as int].children, sv[k as int], j as int);
                    }
                    cur = self.nodes[cur].children[j].1;
                },
                None => {
                    proof {
                        assert(child_index(a[cur as int].children, sv[k as int]) is None);
                    }
                    match &self.nodes[cur].param {
                        Some(pc) => {
                            let ghost pb = bound;
                            bind_param(&mut params, &pc.0, seg);
                            proof {
                                bound = pb.push((pc.0@, sv[k as int]));
                                assert(bound.drop_last() =~= pb);
                                match lookup_route(a, pc.1 as int, sv.skip(k + 1)) {
                                    Some(f) => {
                                        assert(pb + (seq![(pc.0@, sv[k as int])] + f.1) =~= bound + f.1);
                                    },
                                    None => {},
                                }
                            }
                            cur = pc.1;
                        },
                        None => {
                            return None;
                        },
                    }
                },
            }
            k = k + 1;
        }
        proof {
            assert(a[cur as int] == node_view(self.nodes@[cur as int]));
            assert(bound + Seq::<(Seq<char>, Seq<char>)>::empty() =~= bound);
        }
        if self.nodes[cur].handlers.has_any() {
            Some((cur, params))
        } else {
            None
        }
    }

    /// Routes `request` from `peer`: a path that matches no route is
    /// answered with an empty 4.04 Not Found, a method without a handler on
    /// the matched route with an empty 4.05 Method Not Allowed; otherwise the
    /// result is the handler and the request with its context (the peer,
    /// the bound parameters, no security, no extensions).
    pub fn prepare(&self, request: CoapRequest, peer: PeerAddr) -> (r: Routed<'_, H>)
        requires
            self.wf(),
        ensures
            match lookup_route(self@, 0, path_segments(request.path@)) {
                None => r matches Routed::Respond(resp) && bare_response(resp, ResponseType::NotFound),
                Some(found) => match handler_for(self@[found.0].handlers, request.method) {
                    None => r matches Routed::Respond(resp) && bare_response(resp, ResponseType::MethodNotAllowed),
                    Some(h) => r matches Routed::Call(rh, hr) && *rh == h && hr.request == request
                        && hr.ctx.peer == peer && names_distinct(params_view(hr.ctx.params@))
                        && param_map(params_view(hr.ctx.params@)) == param_map(found.1)
                        && hr.ctx.security == crate::handler::SecurityContext::Unsecured
                        && hr.ctx.extensions.wf() && hr.ctx.extensions@.dom().len() == 0,
                },
            },
    {
        let segs = split_path(request.path.as_str());
        let method = request.method;
        match self.lookup(&segs) {
            None => Routed::Respond(CoapResponse::new(ResponseType::NotFound).build()),
            Some((n, params)) => {
                proof {
                    assert(self@[n as int] == node_view(self.nodes@[n as int]));
                }
                match self.nodes[n].handlers.retrieve_handler(method) {
                    None => Routed::Respond(CoapResponse::new(ResponseType::MethodNotAllowed).build()),
                    Some(h) => {
                        let mut ctx = RequestContext::new(peer);
                        ctx.params = params;
                        Routed::Call(h, HandlerRequest { request, ctx })
                    },
                }
            },
        }
    }
}

/// Adding a child node below node `i` keeps the trie well formed.
proof fn lemma_add_child_wf<H>(a: Seq<NodeView<H>>, i: int, p: Seq<char>, param: bool)
    requires
        trie_wf(a),
        0 <= i < a.len(),
        param ==> a[i].param is None,
        !param ==> child_index(a[i].children, p) is None,
    ensures
        trie_wf(if param {
            a.update(i, NodeView { param: Some((p.skip(1), a.len() as int)), ..a[i] }).push(empty_node())
        } else {
            a.update(i, NodeView { children: a[i].children.push((p, a.len() as int)), ..a[i] }).push(empty_node())
        }),
{
    let b = if param {
        a.update(i, NodeView { param: Some((p.skip(1), a.len() as int)), ..a[i] }).push(empty_node())
    } else {
        a.update(i, NodeView { children: a[i].children.push((p, a.len() as int)), ..a[i] }).push(empty_node())
    };
    assert forall|x: int, j: int| 0 <= x < b.len() && 0 <= j < b[x].children.len() implies x < #[trigger] b[x].children[j].1 < b.len() by {
        if x < a.len() && !(x == i && !param && j == a[i].children.len()) {
            assert(b[x].children[j] == a[x].children[j]);
        }
    }
    assert forall|x: int| 0 <= x < b.len() && (#[trigger] b[x].param) is Some implies x < (b[x].param->0).1 < b.len() by {
        if x < a.len() && !(x == i && param) {
            assert(b[x].param == a[x].param);
        }
    }
    assert forall|x: int, j: int, k: int| 0 <= x < b.len() && 0 <= j < b[x].children.len() && 0 <= k < b[x].children.len() && j != k
        implies #[trigger] b[x].children[j].0 != #[trigger] b[x].children[k].0 by {
        if x < a.len() {
            if x == i && !param {
                let n = a[i].children.len() as int;
                if j < n && k < n {
                    assert(b[x].children[j] == a[x].children[j]);
                    assert(b[x].children[k] == a[x].children[k]);
                } else if j < n {
                    assert(b[x].children[j] == a[x].children[j]);
                } else {
                    assert(b[x].children[k] == a[x].children[k]);
                }
            } else {
                assert(b[x].children[j] == a[x].children[j]);
                assert(b[x].children[k] == a[x].children[k]);
            }
        }
    }
}

/// Registering a route below node `i` keeps the trie well formed, leaves
/// the nodes before `i` as they were and only adds nodes.
proof fn lemma_insert_frame<H>(a: Seq<NodeView<H>>, i: int, pats: Seq<Seq<char>>, mh: MethodHandlers<H>)
    requires
        trie_wf(a),
        0 <= i < a.len(),
    ensures
        trie_wf(insert_route(a, i, pats, mh)),
        insert_route(a, i, pats, mh).len() >= a.len(),
        forall|x: int| 0 <= x < i ==> #[trigger] insert_route(a, i, pats, mh)[x] == a[x],
    decreases pats.len(),
{
    if pats.len() == 0 {
        let b = insert_route(a, i, pats, mh);
        assert forall|x: int, j: int, k: int| 0 <= x < b.len() && 0 <= j < b[x].children.len() && 0 <= k < b[x].children.len() && j != k
            implies #[trigger] b[x].children[j].0 != #[trigger] b[x].children[k].0 by {
            assert(b[x].children == a[x].children);
        }
        assert forall|x: int, j: int| 0 <= x < b.len() && 0 <= j < b[x].children.len() implies x < #[trigger] b[x].children[j].1 < b.len() by {
            assert(b[x].children == a[x].children);
        }
    } else {
        let p = pats[0];
        let rest = pats.skip(1);
        if is_param_segment(p) {
            match a[i].param {
                Some(pc) => {
                    lemma_insert_frame(a, pc.1, rest, mh);
                },
                None => {
                    lemma_add_child_wf(a, i, p, true);
                    let a1 = a.update(i, NodeView { param: Some((p.skip(1), a.len() as int)), ..a[i] }).push(empty_node());
                    lemma_insert_frame(a1, a.len() as int, rest, mh);
                },
            }
        } else {
            match child_index(a[i].children, p) {
                Some(j) => {
                    lemma_insert_frame(a, a[i].children[j].1, rest, mh);
                },
                None => {
                    lemma_add_child_wf(a, i, p, false);
                    let a1 = a.update(i, NodeView { children: a[i].children.push((p, a.len() as int)), ..a[i] }).push(empty_node());
                    lemma_insert_frame(a1, a.len() as int, rest, mh);
                },
            }
        }
    }
}

/// After a route of static segments was registered below node `i`, the
/// same segments lead from `i` to a node whose handlers took over every
/// slot of `mh`, binding no parameter.
proof fn lemma_insert_lookup<H>(a: Seq<NodeView<H>>, i: int, pats: Seq<Seq<char>>, mh: MethodHandlers<H>)
    requires
        trie_wf(a),
        0 <= i < a.len(),
        forall|k: int| 0 <= k < pats.len() ==> !is_param_segment(#[trigger] pats[k]),
        has_handlers(mh),
    ensures
        lookup_route(insert_route(a, i, pats, mh), i, pats) matches Some(found)
            && found.1.len() == 0
            && 0 <= found.0 < insert_route(a, i, pats, mh).len()
            && exists|h0: MethodHandlers<H>| insert_route(a, i, pats, mh)[found.0].handlers == merged(h0, mh),
    decreases pats.len(),
{
    let b = insert_route(a, i, pats, mh);
    if pats.len() == 0 {
        assert(b[i].handlers == merged(a[i].handlers, mh));
    } else {
        let p = pats[0];
        let rest = pats.skip(1);
        assert(!is_param_segment(p));
        assert forall|k: int| 0 <= k < rest.len() implies !is_param_segment(#[trigger] rest[k]) by {
            assert(rest[k] == pats[k + 1]);
        }
        match child_index(a[i].children, p) {
            Some(j) => {
                let c = a[i].children[j].1;
                lemma_insert_frame(a, c, rest, mh);
                lemma_insert_lookup(a, c, rest, mh);
                assert(b[i] == a[i]);
            },
            None => {
                lemma_add_child_wf(a, i, p, false);
                let a1 = a.update(i, NodeView { children: a[i].children.push((p, a.len() as int)), ..a[i] }).push(empty_node());
                let c = a.len() as int;
                lemma_insert_frame(a1, c, rest, mh);
                lemma_insert_lookup(a1, c, rest, mh);
                assert(b[i] == a1[i]);
                let n = a[i].children.len() as int;
                assert(b[i].children[n] == (p, c));
                assert(child_index(b[i].children, p) == Some(n));
            },
        }
    }
}

/// A route whose segments are all static, once registered, is found again:
/// routing a request for that path reaches handlers in which each method
/// the route registered has the registered handler, with no parameter bound.
pub proof fn law_registered_route_found<H>(a: Seq<NodeView<H>>, path: Seq<char>, mh: MethodHandlers<H>, method: RequestType)
    requires
        trie_wf(a),
        forall|k: int| 0 <= k < path_segments(path).len() ==> !is_param_segment(#[trigger] path_segments(path)[k]),
        handler_for(mh, method) is Some,
    ensures
        lookup_route(insert_route(a, 0, path_segments(path), mh), 0, path_segments(path)) matches Some(found)
            && found.1.len() == 0
            && handler_for(insert_route(a, 0, path_segments(path), mh)[found.0].handlers, method) == handler_for(mh, method),
{
    lemma_insert_lookup(a, 0, path_segments(path), mh);
}

/// The segments `segs` fit the route `pats`: as many, and equal wherever the
/// route's segment is static.
pub open spec fn fits_route(pats: Seq<Seq<char>>, segs: Seq<Seq<char>>) -> bool {
    &&& pats.len() == segs.len()
    &&& forall|k: int| 0 <= k < pats.len() && !is_param_segment(#[trigger] pats[k]) ==> segs[k] == pats[k]
}

/// The parameters that fitting `segs` to the route `pats` binds: for each
/// parameter segment `:name`, the name and the segment, in order.
pub open spec fn bound_params(pats: Seq<Seq<char>>, segs: Seq<Seq<char>>) -> Seq<(Seq<char>, Seq<char>)>
    decreases pats.len(),
{
    if pats.len() == 0 || segs.len() == 0 {
        Seq::empty()
    } else if is_param_segment(pats[0]) {
        seq![(pats[0].skip(1), segs[0])] + bound_params(pats.skip(1), segs.skip(1))
    } else {
        bound_params(pats.skip(1), segs.skip(1))
    }
}

/// A route registered below a fresh last node makes a chain from it, which
/// the fitting segments follow, binding the route's parameters.
proof fn lemma_fresh_chain<H>(a: Seq<NodeView<H>>, i: int, pats: Seq<Seq<char>>, segs: Seq<Seq<char>>, mh: MethodHandlers<H>)
    requires
        trie_wf(a),
        i == a.len() - 1,
        a[i] == empty_node::<H>(),
        fits_route(pats, segs),
        has_handlers(mh),
    ensures
        lookup_route(insert_route(a, i, pats, mh), i, segs) matches Some(found)
            && found.1 == bound_params(pats, segs)
            && 0 <= found.0 < insert_route(a, i, pats, mh).len()
            && insert_route(a, i, pats, mh)[found.0].handlers == merged(no_handlers(), mh),
    decreases pats.len(),
{
    let b = insert_route(a, i, pats, mh);
    if pats.len() == 0 {
        assert(b[i].handlers == merged(a[i].handlers, mh));
    } else {
        let p = pats[0];
        let rest = pats.skip(1);
        let srest = segs.skip(1);
        assert(fits_route(rest, srest)) by {
            assert forall|k: int| 0 <= k < rest.len() && !is_param_segment(#[trigger] rest[k]) implies srest[k] == rest[k] by {
                assert(rest[k] == pats[k + 1]);
                assert(srest[k] == segs[k + 1]);
            }
        }
        let c = a.len() as int;
        if is_param_segment(p) {
            lemma_add_child_wf(a, i, p, true);
            let a1 = a.update(i, NodeView { param: Some((p.skip(1), c)), ..a[i] }).push(empty_node());
            lemma_insert_frame(a1, c, rest, mh);
            lemma_fresh_chain(a1, c, rest, srest, mh);
            assert(b[i] == a1[i]);
            assert(child_index(b[i].children, segs[0]) is None);
        } else {
            lemma_add_child_wf(a, i, p, false);
            let a1 = a.update(i, NodeView { children: a[i].children.push((p, c)), ..a[i] }).push(empty_node());
            lemma_insert_frame(a1, c, rest, mh);
            lemma_fresh_chain(a1, c, rest, srest, mh);
            assert(b[i] == a1[i]);
            assert(segs[0] == p);
            assert(b[i].children[0] == (p, c));
            assert(child_index(b[i].children, segs[0]) == Some(0int));
        }
    }
}

/// On a router with no other route, a registered route with parameters
/// matches every path that fits it, binding each parameter to the segment
/// in its place, and reaches the registered handlers.
pub proof fn law_route_binds_parameters<H>(path: Seq<char>, mh: MethodHandlers<H>, request_path: Seq<char>)
    requires
        has_handlers(mh),
        fits_route(path_segments(path), path_segments(request_path)),
    ensures
        lookup_route(insert_route(seq![empty_node::<H>()], 0, path_segments(path), mh), 0, path_segments(request_path))
            matches Some(found)
            && found.1 == bound_params(path_segments(path), path_segments(request_path))
            && insert_route(seq![empty_node::<H>()], 0, path_segments(path), mh)[found.0].handlers == merged(no_handlers(), mh),
{
    let a = seq![empty_node::<H>()];
    assert(trie_wf(a));
    lemma_fresh_chain(a, 0, path_segments(path), path_segments(request_path), mh);
}

/// The node that registering the route `pats` below node `i` of `a` reaches
/// (see `insert_route`): an existing child is followed, a missing one is the
/// node added last.
pub open spec fn route_target<H>(a: Seq<NodeView<H>>, i: int, pats: Seq<Seq<char>>) -> int
    decreases pats.len(),
{
    if pats.len() == 0 {
        i
    } else {
        let p = pats[0];
        let rest = pats.skip(1);
        if is_param_segment(p) {
            match a[i].param {
                Some(pc) => route_target(a, pc.1, rest),
                None => route_target(
                    a.update(i, NodeView { param: Some((p.skip(1), a.len() as int)), ..a[i] }).push(empty_node()),
                    a.len() as int,
                    rest,
                ),
            }
        } else {
            match child_index(a[i].children, p) {
                Some(j) => route_target(a, a[i].children[j].1, rest),
                None => route_target(
                    a.update(i, NodeView { children: a[i].children.push((p, a.len() as int)), ..a[i] }).push(empty_node()),
                    a.len() as int,
                    rest,
                ),
            }
        }
    }
}

/// The handlers node `x` of `a` holds, a node not yet in `a` holding none.
pub open spec fn handlers_before<H>(a: Seq<NodeView<H>>, x: int) -> MethodHandlers<H> {
    if x < a.len() { a[x].handlers } else { no_handlers() }
}

/// Registering a route walks to `route_target`, merging the handlers there
/// and changing no other node's handlers; every node that was there keeps
/// its parameter child (with the name it was first registered under) and
/// its static children.
proof fn lemma_route_walk<H>(a: Seq<NodeView<H>>, i: int, pats: Seq<Seq<char>>, mh: MethodHandlers<H>)
    requires
        trie_wf(a),
        0 <= i < a.len(),
    ensures
        0 <= route_target(a, i, pats) < insert_route(a, i, pats, mh).len(),
        insert_route(a, i, pats, mh)[route_target(a, i, pats)].handlers
            == merged(handlers_before(a, route_target(a, i, pats)), mh),
        forall|x: int| 0 <= x < insert_route(a, i, pats, mh).len() && x != route_target(a, i, pats)
            ==> #[trigger] insert_route(a, i, pats, mh)[x].handlers == handlers_before(a, x),
        forall|x: int| 0 <= x < a.len() && (#[trigger] a[x].param) is Some
            ==> insert_route(a, i, pats, mh)[x].param == a[x].param,
        forall|x: int| 0 <= x < a.len()
            ==> #[trigger] insert_route(a, i, pats, mh)[x].children.take(a[x].children.len() as int) == a[x].children,
        forall|x: int| 0 <= x < a.len()
            ==> #[trigger] insert_route(a, i, pats, mh)[x].children.len() >= a[x].children.len(),
    decreases pats.len(),
{
    let b = insert_route(a, i, pats, mh);
    lemma_insert_frame(a, i, pats, mh);
    if pats.len() == 0 {
        assert forall|x: int| 0 <= x < a.len() implies b[x].children.len() >= a[x].children.len()
            && #[trigger] b[x].children.take(a[x].children.len() as int) == a[x].children by {
            assert(b[x].children == a[x].children);
            assert(a[x].children.take(a[x].children.len() as int) =~= a[x].children);
        }
    } else {
        let p = pats[0];
        let rest = pats.skip(1);
        let n = a.len() as int;
        if is_param_segment(p) {
            match a[i].param {
                Some(pc) => {
                    lemma_route_walk(a, pc.1, rest, mh);
                    assert forall|x: int| 0 <= x < a.len() implies b[x].children.len() >= a[x].children.len()
                        && #[trigger] b[x].children.take(a[x].children.len() as int) == a[x].children by {
                        assert(b[x] == insert_route(a, pc.1, rest, mh)[x]);
                    }
                },
                None => {
                    lemma_add_child_wf(a, i, p, true);
                    let a1 = a.update(i, NodeView { param: Some((p.skip(1), n)), ..a[i] }).push(empty_node());
                    lemma_route_walk(a1, n, rest, mh);
                    assert forall|x: int| 0 <= x < b.len() implies #[trigger] handlers_before(a1, x) == handlers_before(a, x) by {
                        if x < n {
                            assert(a1[x].handlers == a[x].handlers);
                        } else if x == n {
                            assert(a1[x] == empty_node::<H>());
                        }
                    }
                    assert(handlers_before(a1, route_target(a1, n, rest)) == handlers_before(a, route_target(a1, n, rest)));
                    assert forall|x: int| 0 <= x < b.len() && x != route_target(a, i, pats) implies #[trigger] b[x].handlers == handlers_before(a, x) by {
                        assert(b[x].handlers == handlers_before(a1, x));
                        assert(handlers_before(a1, x) == handlers_before(a, x));
                    }
                    assert forall|x: int| 0 <= x < a.len() && (#[trigger] a[x].param) is Some implies b[x].param == a[x].param by {
                        assert(a1[x] == a[x]);
                        assert(a1[x].param is Some);
                    }
                    assert forall|x: int| 0 <= x < a.len() implies b[x].children.len() >= a[x].children.len()
                        && #[trigger] b[x].children.take(a[x].children.len() as int) == a[x].children by {
                        assert(a1[x].children == a[x].children);
                        assert(b[x].children.take(a1[x].children.len() as int) == a1[x].children);
                    }
                },
            }
        } else {
            match child_index(a[i].children, p) {
                Some(j) => {
                    lemma_route_walk(a, a[i].children[j].1, rest, mh);
                    assert forall|x: int| 0 <= x < a.len() implies b[x].children.len() >= a[x].children.len()
                        && #[trigger] b[x].children.take(a[x].children.len() as int) == a[x].children by {
                        assert(b[x] == insert_route(a, a[i].children[j].1, rest, mh)[x]);
                    }
                },
                None => {
                    lemma_add_child_wf(a, i, p, false);
                    let a1 = a.update(i, NodeView { children: a[i].children.push((p, n)), ..a[i] }).push(empty_node());
                    lemma_route_walk(a1, n, rest, mh);
                    assert forall|x: int| 0 <= x < b.len() implies #[trigger] handlers_before(a1, x) == handlers_before(a, x) by {
                        if x < n {
                            assert(a1[x].handlers == a[x].handlers);
                        } else if x == n {
                            assert(a1[x] == empty_node::<H>());
                        }
                    }
                    assert(handlers_before(a1, route_target(a1, n, rest)) == handlers_before(a, route_target(a1, n, rest)));
                    assert forall|x: int| 0 <= x < b.len() && x != route_target(a, i, pats) implies #[trigger] b[x].handlers == handlers_before(a, x) by {
                        assert(b[x].handlers == handlers_before(a1, x));
                        assert(handlers_before(a1, x) == handlers_before(a, x));
                    }
                    assert forall|x: int| 0 <= x < a.len() && (#[trigger] a[x].param) is Some implies b[x].param == a[x].param by {
                        assert(a1[x].param == a[x].param);
                        assert(a1[x].param is Some);
                    }
                    assert forall|x: int| 0 <= x < a.len() implies b[x].children.len() >= a[x].children.len()
                        && #[trigger] b[x].children.take(a[x].children.len() as int) == a[x].children by {
                        let k = a[x].children.len() as int;
                        let k1 = a1[x].children.len() as int;
                        assert(b[x].children.take(k1) == a1[x].children);
                        if x == i {
                            assert(a1[x].children == a[x].children.push((p, n)));
                            assert(b[x].children.take(k) =~= b[x].children.take(k1).take(k));
                            assert(a[x].children.push((p, n)).take(k) =~= a[x].children);
                        } else {
                            assert(a1[x].children == a[x].children);
                        }
                    }
                },
            }
        }
    }
}

/// Registering the same segments again below node `i` walks to the node the
/// first registration reached, adds no node and merges the new handlers
/// there.
proof fn lemma_route_twice<H>(a: Seq<NodeView<H>>, i: int, pats: Seq<Seq<char>>, m1: MethodHandlers<H>, m2: MethodHandlers<H>)
    requires
        trie_wf(a),
        0 <= i < a.len(),
    ensures
        insert_route(insert_route(a, i, pats, m1), i, pats, m2) == insert_route(a, i, pats, m1).update(
            route_target(a, i, pats),
            NodeView {
                handlers: merged(insert_route(a, i, pats, m1)[route_target(a, i, pats)].handlers, m2),
                ..insert_route(a, i, pats, m1)[route_target(a, i, pats)]
            },
        ),
    decreases pats.len(),
{
    let b = insert_route(a, i, pats, m1);
    if pats.len() > 0 {
        let p = pats[0];
        let rest = pats.skip(1);
        let n = a.len() as int;
        if is_param_segment(p) {
            match a[i].param {
                Some(pc) => {
                    lemma_insert_frame(a, pc.1, rest, m1);
                    assert(b[i] == a[i]);
                    lemma_route_twice(a, pc.1, rest, m1, m2);
                },
                None => {
                    lemma_add_child_wf(a, i, p, true);
                    let a1 = a.update(i, NodeView { param: Some((p.skip(1), n)), ..a[i] }).push(empty_node());
                    lemma_insert_frame(a1, n, rest, m1);
                    assert(b[i] == a1[i]);
                    lemma_route_twice(a1, n, rest, m1, m2);
                },
            }
        } else {
            match child_index(a[i].children, p) {
                Some(j) => {
                    let c = a[i].children[j].1;
                    lemma_insert_frame(a, c, rest, m1);
                    assert(b[i] == a[i]);
                    lemma_route_twice(a, c, rest, m1, m2);
                },
                None => {
                    lemma_add_child_wf(a, i, p, false);
                    let a1 = a.update(i, NodeView { children: a[i].children.push((p, n)), ..a[i] }).push(empty_node());
                    lemma_insert_frame(a1, n, rest, m1);
                    assert(b[i] == a1[i]);
                    let k = a[i].children.len() as int;
                    assert(a1[i].children[k] == (p, n));
                    lemma_child_index(a1[i].children, p, k);
                    lemma_route_twice(a1, n, rest, m1, m2);
                },
            }
        }
    }
}

/// Registering a route reaches `route_target` and merges the route's
/// handlers into what that node held (nothing, for a node it added), leaves
/// every other node's handlers as they were, keeps each existing parameter
/// child under the name it was first registered with (whatever name the
/// route gives it), and keeps each node's existing static children.
pub proof fn law_route_reuses_nodes<H>(a: Seq<NodeView<H>>, path: Seq<char>, mh: MethodHandlers<H>)
    requires
        trie_wf(a),
    ensures
        insert_route(a, 0, path_segments(path), mh)[route_target(a, 0, path_segments(path))].handlers
            == merged(handlers_before(a, route_target(a, 0, path_segments(path))), mh),
        forall|x: int| 0 <= x < insert_route(a, 0, path_segments(path), mh).len() && x != route_target(a, 0, path_segments(path))
            ==> #[trigger] insert_route(a, 0, path_segments(path), mh)[x].handlers == handlers_before(a, x),
        forall|x: int| 0 <= x < a.len() && (#[trigger] a[x].param) is Some
            ==> insert_route(a, 0, path_segments(path), mh)[x].param == a[x].param,
        forall|x: int| 0 <= x < a.len()
            ==> #[trigger] insert_route(a, 0, path_segments(path), mh)[x].children.take(a[x].children.len() as int) == a[x].children,
{
    lemma_route_walk(a, 0, path_segments(path), mh);
}

/// Routing two paths with the same segments (such as "/a/b" and "a//b/")
/// reaches one node: the second registration adds no node, and that node's
/// handler for each method is the second route's where it sets one, else
/// the first route's where it sets one, else what the node held before.
pub proof fn law_same_segments_merge<H>(
    a: Seq<NodeView<H>>,
    path1: Seq<char>,
    path2: Seq<char>,
    m1: MethodHandlers<H>,
    m2: MethodHandlers<H>,
)
    requires
        trie_wf(a),
        path_segments(path1) == path_segments(path2),
    ensures
        insert_route(insert_route(a, 0, path_segments(path1), m1), 0, path_segments(path2), m2)
            == insert_route(a, 0, path_segments(path1), m1).update(
                route_target(a, 0, path_segments(path1)),
                NodeView {
                    handlers: merged(merged(handlers_before(a, route_target(a, 0, path_segments(path1))), m1), m2),
                    ..insert_route(a, 0, path_segments(path1), m1)[route_target(a, 0, path_segments(path1))]
                },
            ),
{
    lemma_route_walk(a, 0, path_segments(path1), m1);
    lemma_route_twice(a, 0, path_segments(path1), m1, m2);
}

} // verus!
