//! What a request handler gets besides the request: the peer, path
//! parameters, the security identity and a type-keyed extension map.

use vstd::prelude::*;
use std::any::{Any, TypeId};
use crate::exchange::PeerAddr;
use crate::message::CoapRequest;
use crate::table::{Table, TableKey};

verus! {

#[verifier::external_type_specification]
#[verifier::external_body]
pub struct ExTypeId(TypeId);

/// A value whose type is erased (a boxed `dyn Any + Send + Sync`).
#[verifier::external_body]
pub struct ErasedValue {
    inner: Box<dyn Any + Send + Sync>,
}

/// Calls `std::any::TypeId::of::<T>()`. Nothing is stated of the
/// identifier: which one a type gets is the compiler's choice.
#[verifier::external_body]
fn type_key<T: 'static>() -> (r: TypeId) {
    TypeId::of::<T>()
}

/// Calls `==` on two `TypeId`s, which std documents as the identity of the
/// types; states that it is the equality of the two values.
#[verifier::external_body]
fn same_type_key(a: &TypeId, b: &TypeId) -> (r: bool)
    ensures
        r == (*a == *b),
{
    *a == *b
}

/// Boxes `val` as a value of erased type (`Box::new`). Nothing is stated of
/// the box.
#[verifier::external_body]
fn erase<T: Send + Sync + 'static>(val: T) -> (r: ErasedValue) {
    ErasedValue { inner: Box::new(val) }
}

/// Calls `<dyn Any>::downcast_ref::<T>` on the boxed value: a reference to it
/// when it is a `T`. Which values are a `T` is not stated.
#[verifier::external_body]
fn downcast_ref<T: 'static>(v: &ErasedValue) -> (r: Option<&T>) {
    v.inner.downcast_ref::<T>()
}

/// Calls `<dyn Any>::downcast_mut::<T>` on the boxed value. Which values are
/// a `T`, and what the box holds afterwards, is not stated.
#[verifier::external_body]
fn downcast_mut<T: 'static>(v: &mut ErasedValue) -> (r: Option<&mut T>) {
    v.inner.downcast_mut::<T>()
}

/// Calls `Box::<dyn Any + Send + Sync>::downcast::<T>` and unboxes the
/// result: the value when it is a `T`. Which values are a `T` is not stated.
#[verifier::external_body]
fn downcast_owned<T: 'static>(v: ErasedValue) -> (r: Option<T>) {
    v.inner.downcast::<T>().ok().map(|b| *b)
}

impl TableKey for TypeId {
    type Spec = TypeId;

    open spec fn key(&self) -> TypeId {
        *self
    }

    fn same_key(&self, other: &Self) -> (r: bool) {
        same_type_key(self, other)
    }
}

/// The security identity a security layer attached to a request.
#[derive(Debug, Clone, Copy, PartialEq, Eq, Structural)]
pub enum SecurityContext {
    /// No security was applied.
    Unsecured,
}

/// A map from a type to one value of that type, for data that middleware
/// attaches to a request. Values are keyed by their type's `TypeId`.
pub struct Extensions {
    map: Table<TypeId, ErasedValue>,
}

impl View for Extensions {
    type V = Map<TypeId, ErasedValue>;

    closed spec fn view(&self) -> Map<TypeId, ErasedValue> {
        self.map@
    }
}

impl Default for Extensions {
    fn default() -> (r: Self)
        ensures
            r.wf(),
            r@ == Map::<TypeId, ErasedValue>::empty(),
    {
        Extensions::new()
    }
}

impl Extensions {
    /// The map's invariant: no type is stored twice.
    pub closed spec fn wf(&self) -> bool {
        self.map.wf()
    }

    /// An empty map.
    pub fn new() -> (r: Self)
        ensures
            r.wf(),
            r@ == Map::<TypeId, ErasedValue>::empty(),
    {
        Extensions { map: Table::new() }
    }

    /// Binds `key` to `value`, replacing what was bound to it.
    pub fn insert_keyed(&mut self, key: TypeId, value: ErasedValue)
        requires
            old(self).wf(),
        ensures
            final(self).wf(),
            final(self)@ == old(self)@.insert(key, value),
    {
        self.map.insert(key, value);
    }

    /// The value bound to `key`, if any.
    pub fn get_keyed(&self, key: &TypeId) -> (r: Option<&ErasedValue>)
        requires
            self.wf(),
        ensures
            r matches Some(v) ==> self@.dom().contains(*key) && *v == self@[*key],
            r is None ==> !self@.dom().contains(*key),
    {
        self.map.get(key)
    }

    /// Removes the value bound to `key` and returns it, if any.
    pub fn remove_keyed(&mut self, key: &TypeId) -> (r: Option<ErasedValue>)
        requires
            old(self).wf(),
        ensures
            final(self).wf(),
            final(self)@ == old(self)@.remove(*key),
            r matches Some(v) ==> old(self)@.dom().contains(*key) && v == old(self)@[*key],
            r is None ==> !old(self)@.dom().contains(*key),
    {
        self.map.remove(key)
    }

    /// Stores `val` under its type, replacing a value of that type. The
    /// stored entry is keyed by `TypeId::of::<T>()`; which identifier that
    /// is, and the boxed value, are not stated.
    pub fn insert<T: Send + Sync + 'static>(&mut self, val: T)
        requires
            old(self).wf(),
        ensures
            final(self).wf(),
            exists|k: TypeId, v: ErasedValue| final(self)@ == old(self)@.insert(k, v),
    {
        let key = type_key::<T>();
        self.insert_keyed(key, erase(val));
    }

    /// The value of type `T`, if one is stored: looked up by
    /// `TypeId::of::<T>()` and downcast. Which key that is, and what the
    /// downcast gives, are not stated.
    pub fn get<T: Send + Sync + 'static>(&self) -> (r: Option<&T>)
        requires
            self.wf(),
        ensures
            r is Some ==> exists|k: TypeId| self@.dom().contains(k),
    {
        let key = type_key::<T>();
        match self.get_keyed(&key) {
            Some(v) => downcast_ref::<T>(v),
            None => None,
        }
    }

    /// A mutable reference to the value of type `T`, if one is stored. What
    /// is written through it stays under the same key; the downcast itself
    /// is not stated.
    pub fn get_mut<T: Send + Sync + 'static>(&mut self) -> (r: Option<&mut T>)
        requires
            old(self).wf(),
        ensures
            final(self).wf(),
            final(self)@.dom() == old(self)@.dom(),
            r is Some ==> exists|k: TypeId| old(self)@.dom().contains(k),
    {
        let key = type_key::<T>();
        match self.map.find(&key) {
            Some(i) => {
                let ghost e0 = self.map.entries();
                proof {
                    crate::table::lemma_entries_index(e0, i as int);
                }
                proof {
                    self.map.lemma_view_entries();
                }
                assert(old(self)@.dom().contains(key));
                let v = self.map.value_mut_at(i);
                proof {
                    assert(old(self)@.insert(key, *final(v)).dom() =~= old(self)@.dom());
                }
                downcast_mut::<T>(v)
            },
            None => None,
        }
    }

    /// Removes the value of type `T` and returns it, if one is stored. The
    /// entry removed is the one keyed by `TypeId::of::<T>()`; which that is,
    /// and what the downcast gives, are not stated.
    pub fn remove<T: Send + Sync + 'static>(&mut self) -> (r: Option<T>)
        requires
            old(self).wf(),
        ensures
            final(self).wf(),
            exists|k: TypeId| final(self)@ == old(self)@.remove(k),
            r is Some ==> exists|k: TypeId| old(self)@.dom().contains(k),
    {
        let key = type_key::<T>();
        match self.remove_keyed(&key) {
            Some(v) => downcast_owned::<T>(v),
            None => None,
        }
    }
}

/// What the transport and router know of a request.
pub struct RequestContext {
    /// The peer the request came from.
    pub peer: PeerAddr,
    /// Path parameters the router bound (name and value): no name occurs
    /// twice, and a name bound twice on the path holds its later value.
    pub params: Vec<(String, String)>,
    /// The security identity of the request.
    pub security: SecurityContext,
    /// Data that middleware attached.
    pub extensions: Extensions,
}

impl RequestContext {
    /// The context of a request from `peer`: no parameters, no security,
    /// no extensions.
    pub fn new(peer: PeerAddr) -> (r: Self)
        ensures
            r.peer == peer,
            r.params@.len() == 0,
            r.security == SecurityContext::Unsecured,
            r.extensions.wf(),
            r.extensions@ == Map::<TypeId, ErasedValue>::empty(),
    {
        RequestContext { peer, params: Vec::new(), security: SecurityContext::Unsecured, extensions: Extensions::new() }
    }
}

/// What a handler is called with: the request and its context.
pub struct HandlerRequest {
    pub request: CoapRequest,
    pub ctx: RequestContext,
}

} // verus!
