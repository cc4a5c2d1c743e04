use vstd::prelude::*;
use vstd::utf8::*;
use vstd::slice::*;
use vstd::string::StringSliceAdditionalSpecFns;
use crate::server::{HandleError, ServerHandler};

verus! {

/// Index of the first zero byte of `data`, or `data.len()` when it holds none.
pub open spec fn first_zero(data: Seq<u8>) -> int
    decreases data.len(),
{
    if data.len() == 0 {
        0
    } else if data[0] == 0 {
        0
    } else {
        1 + first_zero(data.drop_first())
    }
}

/// `std::str::from_utf8`: the bytes are taken as a string exactly when they
/// are valid UTF-8, and the string then encodes to those very bytes.
#[verifier::external_body]
fn str_from_utf8(bytes: &[u8]) -> (res: Option<&str>)
    ensures
        res is Some <==> valid_utf8(bytes@),
        res matches Some(s) ==> s.spec_bytes() == bytes@,
{
    std::str::from_utf8(bytes).ok()
}

/// The route that `get_route` reads off the front of `data`: the bytes before
/// the first zero byte, when there is such a byte and those bytes are UTF-8.
pub open spec fn spec_route(data: Seq<u8>) -> Option<(Seq<u8>, Seq<u8>)> {
    let i = first_zero(data);
    if i < data.len() && valid_utf8(data.take(i)) {
        Some((data.take(i), data.skip(i + 1)))
    } else {
        None
    }
}

proof fn lemma_first_zero(data: Seq<u8>)
    ensures
        0 <= first_zero(data) <= data.len(),
        first_zero(data) < data.len() ==> data[first_zero(data)] == 0,
        forall|j: int| 0 <= j < first_zero(data) ==> data[j] != 0,
    decreases data.len(),
{
    if data.len() > 0 && data[0] != 0 {
        lemma_first_zero(data.drop_first());
        assert forall|j: int| 0 <= j < first_zero(data) implies data[j] != 0 by {
            if j > 0 {
                assert(data[j] == data.drop_first()[j - 1]);
            }
        }
    }
}

/// Splits a request into its payload and its route: the route is the text
/// before the first zero byte, the payload what follows that byte. Where there
/// is no zero byte, or the bytes before it are not UTF-8, the whole request is
/// the payload and the route is empty.
pub fn get_route(data: &[u8]) -> (res: (&[u8], &str))
    ensures
        spec_route(data@) matches Some((route, payload)) ==> res.0@ == payload
            && res.1.spec_bytes() == route,
        spec_route(data@) is None ==> res.0@ == data@ && res.1@ == Seq::<char>::empty(),
        spec_route(data@) is Some ==> framed(res.1.spec_bytes(), res.0@) == data@,
{
    proof { lemma_first_zero(data@); }
    let mut i: usize = 0;
    while i < data.len() && data[i] != 0
        invariant
            0 <= i <= data@.len(),
            i <= first_zero(data@),
            0 <= first_zero(data@) <= data@.len(),
            first_zero(data@) < data@.len() ==> data@[first_zero(data@)] == 0,
            forall|j: int| 0 <= j < first_zero(data@) ==> data@[j] != 0,
        decreases data@.len() - i,
    {
        i = i + 1;
    }
    if i == data.len() {
        proof { reveal_strlit(""); }
        return (data, "");
    }
    assert(i == first_zero(data@));
    let head = slice_subrange(data, 0, i);
    match str_from_utf8(head) {
        Some(route) => {
            let rest = slice_subrange(data, i + 1, data.len());
            assert(framed(route.spec_bytes(), rest@) =~= data@);
            (rest, route)
        },
        None => {
            proof { reveal_strlit(""); }
            (data, "")
        },
    }
}

} // verus!

verus! {

/// The framing that `add_route` puts in front of a payload: the route's
/// UTF-8 bytes, then a zero byte.
pub open spec fn framed(route: Seq<u8>, payload: Seq<u8>) -> Seq<u8> {
    route + seq![0u8] + payload
}

/// Puts `route` in front of `data`, separated from it by a zero byte.
pub fn add_route(data: Vec<u8>, route: &str) -> (res: Vec<u8>)
    ensures
        res@ == framed(route.spec_bytes(), data@),
{
    let mut out = slice_to_vec(route.as_bytes());
    out.push(0u8);
    let mut rest = data;
    out.append(&mut rest);
    out
}

proof fn lemma_scalar_has_no_zero_byte(v: u32)
    requires
        is_scalar(v),
        v != 0,
    ensures
        !encode_scalar(v).contains(0u8),
{
    if has_width_1_encoding(v) {
        assert(1 <= v <= 0x7f ==> (v & 0x7f) as u8 != 0) by (bit_vector);
        assert(encode_scalar(v)[0] != 0);
    } else if has_width_2_encoding(v) {
        assert((0xC0 | ((v >> 6) & 0x1F) as u8) != 0u8) by (bit_vector);
        assert((0x80 | (v & 0x3F) as u8) != 0u8) by (bit_vector);
        assert(encode_scalar(v)[0] != 0 && encode_scalar(v)[1] != 0);
    } else if has_width_3_encoding(v) {
        assert((0xE0 | ((v >> 12) & 0x0F) as u8) != 0u8) by (bit_vector);
        assert((0x80 | ((v >> 6) & 0x3F) as u8) != 0u8) by (bit_vector);
        assert((0x80 | (v & 0x3F) as u8) != 0u8) by (bit_vector);
        assert(encode_scalar(v)[0] != 0 && encode_scalar(v)[1] != 0 && encode_scalar(v)[2] != 0);
    } else {
        assert((0xF0 | ((v >> 18) & 0x7) as u8) != 0u8) by (bit_vector);
        assert((0x80 | ((v >> 12) & 0x3F) as u8) != 0u8) by (bit_vector);
        assert((0x80 | ((v >> 6) & 0x3F) as u8) != 0u8) by (bit_vector);
        assert((0x80 | (v & 0x3F) as u8) != 0u8) by (bit_vector);
        assert(encode_scalar(v)[0] != 0 && encode_scalar(v)[1] != 0 && encode_scalar(v)[2] != 0
            && encode_scalar(v)[3] != 0);
    }
}

/// A text without the NUL character encodes to bytes without a zero byte.
pub proof fn lemma_encoding_has_no_zero_byte(route: Seq<char>)
    requires
        !route.contains('\0'),
    ensures
        !encode_utf8(route).contains(0u8),
    decreases route.len(),
{
    if route.len() > 0 {
        let c = route[0];
        char_is_scalar(c);
        assert(c as u32 != 0) by {
            if c as u32 == 0 {
                char_u32_cast(c, 0u32);
                char_u32_cast('\0', 0u32);
            }
        }
        lemma_scalar_has_no_zero_byte(c as u32);
        assert(!route.drop_first().contains('\0')) by {
            if route.drop_first().contains('\0') {
                let k = choose|k: int| 0 <= k < route.drop_first().len() && route.drop_first()[k] == '\0';
                assert(route[k + 1] == '\0');
            }
        }
        lemma_encoding_has_no_zero_byte(route.drop_first());
        let a = encode_scalar(c as u32);
        let b = encode_utf8(route.drop_first());
        assert(encode_utf8(route) == a + b);
        if (a + b).contains(0u8) {
            let k = choose|k: int| 0 <= k < (a + b).len() && (a + b)[k] == 0u8;
            if k < a.len() {
                assert(a[k] == 0u8);
            } else {
                assert(b[k - a.len()] == 0u8);
            }
        }
    }
}

proof fn lemma_first_zero_of_framed(route: Seq<u8>, payload: Seq<u8>)
    requires
        !route.contains(0u8),
    ensures
        first_zero(framed(route, payload)) == route.len(),
    decreases route.len(),
{
    let f = framed(route, payload);
    if route.len() == 0 {
        assert(f[0] == 0u8);
    } else {
        assert(route[0] != 0u8);
        assert(!route.drop_first().contains(0u8)) by {
            if route.drop_first().contains(0u8) {
                let k = choose|k: int| 0 <= k < route.drop_first().len() && route.drop_first()[k] == 0u8;
                assert(route[k + 1] == 0u8);
            }
        }
        lemma_first_zero_of_framed(route.drop_first(), payload);
        assert(f.drop_first() == framed(route.drop_first(), payload));
    }
}

/// Reading the route off a request that `add_route` framed gives back the
/// route and the payload, for every route without the NUL character.
pub proof fn lemma_get_route_of_add_route(route: Seq<char>, payload: Seq<u8>)
    requires
        !route.contains('\0'),
    ensures
        spec_route(framed(encode_utf8(route), payload)) == Some((encode_utf8(route), payload)),
{
    let r = encode_utf8(route);
    lemma_encoding_has_no_zero_byte(route);
    lemma_first_zero_of_framed(r, payload);
    encode_utf8_valid_utf8(route);
    let f = framed(r, payload);
    assert(f.take(r.len() as int) == r);
    assert(f.skip(r.len() as int + 1) == payload);
}

} // verus!

verus! {

/// The route and payload that a router reads off a request: the route is the
/// text before the first zero byte; where `get_route` finds none, the route is
/// empty and the payload is the whole request.
pub open spec fn split_request(data: Seq<u8>) -> (Seq<char>, Seq<u8>) {
    match spec_route(data) {
        Some((route, payload)) => (decode_utf8(route), payload),
        None => (Seq::<char>::empty(), data),
    }
}

/// Adding a key that is not there yet keeps the keys distinct.
pub proof fn lemma_push_absent_no_duplicates(keys: Seq<Seq<char>>, key: Seq<char>)
    ensures
        keys.no_duplicates() && !keys.contains(key) ==> keys.push(key).no_duplicates(),
{
    if keys.no_duplicates() && !keys.contains(key) {
        let s = keys.push(key);
        assert forall|a: int, b: int| 0 <= a < s.len() && 0 <= b < s.len() && a != b implies s[a]
            != s[b] by {
            if a < keys.len() && b < keys.len() {
                assert(s[a] == keys[a] && s[b] == keys[b]);
            } else if a < keys.len() {
                assert(s[a] == keys[a]);
            } else if b < keys.len() {
                assert(s[b] == keys[b]);
            }
        }
    }
}

/// The position of the first `key` in `keys`.
pub open spec fn first_index(keys: Seq<Seq<char>>, key: Seq<char>) -> Option<int>
    decreases keys.len(),
{
    if keys.len() == 0 {
        None
    } else if keys[0] == key {
        Some(0)
    } else {
        match first_index(keys.drop_first(), key) {
            Some(i) => Some(i + 1),
            None => None,
        }
    }
}

pub proof fn lemma_first_index(keys: Seq<Seq<char>>, key: Seq<char>)
    ensures
        first_index(keys, key) matches Some(i) ==> 0 <= i < keys.len() && keys[i] == key
            && forall|j: int| 0 <= j < i ==> keys[j] != key,
        first_index(keys, key) is None <==> !keys.contains(key),
    decreases keys.len(),
{
    if keys.len() > 0 {
        lemma_first_index(keys.drop_first(), key);
        if keys[0] != key {
            if first_index(keys.drop_first(), key) is None {
                if keys.contains(key) {
                    let k = choose|k: int| 0 <= k < keys.len() && keys[k] == key;
                    assert(keys.drop_first()[k - 1] == key);
                }
            } else {
                let i = first_index(keys, key)->0;
                assert forall|j: int| 0 <= j < i implies keys[j] != key by {
                    if j > 0 {
                        assert(keys[j] == keys.drop_first()[j - 1]);
                    }
                }
                assert(keys[i] == keys.drop_first()[i - 1]);
            }
        }
    }
}

} // verus!

verus! {

/// Where a router sends a request: to the handler at the end of a chain of
/// routes, with what is left of the request, or nowhere, for want of a
/// handler or a sub-router under the route that it names.
pub enum Dispatch {
    Reached(Seq<Seq<char>>, Seq<u8>),
    Unhandled(Seq<char>),
}

/// The keys of a list of entries.
pub open spec fn keys_of<V>(entries: Seq<(String, V)>) -> Seq<Seq<char>> {
    Seq::new(entries.len(), |i: int| entries[i].0@)
}

/// The position of the first entry under `key`.
fn position_of<V>(entries: &Vec<(String, V)>, key: &String) -> (res: Option<usize>)
    ensures
        res matches Some(i) ==> first_index(keys_of(entries@), key@) == Some(i as int),
        res is None ==> first_index(keys_of(entries@), key@) is None,
{
    let ghost keys = keys_of(entries@);
    proof { lemma_first_index(keys, key@); }
    let mut i: usize = 0;
    while i < entries.len()
        invariant
            0 <= i <= entries@.len(),
            keys == keys_of(entries@),
            forall|j: int| 0 <= j < i ==> keys[j] != key@,
            first_index(keys, key@) matches Some(k) ==> 0 <= k < keys.len() && keys[k] == key@
                && forall|j: int| 0 <= j < k ==> keys[j] != key@,
            first_index(keys, key@) is None <==> !keys.contains(key@),
        decreases entries@.len() - i,
    {
        if entries[i].0 == *key {
            assert(keys[i as int] == key@);
            return Some(i);
        }
        i = i + 1;
    }
    assert(!keys.contains(key@));
    None
}

/// The value of entry `i`, to change in place.
fn entry_value_mut<V>(entries: &mut Vec<(String, V)>, i: usize) -> (r: &mut V)
    requires
        i < old(entries)@.len(),
    ensures
        *r == old(entries)@[i as int].1,
        final(entries)@ == old(entries)@.update(i as int, (old(entries)@[i as int].0, *final(r))),
        keys_of(final(entries)@) == keys_of(old(entries)@),
{
    &mut entries[i].1
}

/// A server handler that passes each request on by the route at its front:
/// to the handler registered under that route, or else to the sub-router
/// registered under it, which reads the next route.
pub struct RouteHandler {
    pub subhandlers: Vec<(String, Box<RouteHandler>)>,
    pub handlers: Vec<(String, Box<dyn ServerHandler>)>,
}

impl RouteHandler {
    /// The routes with a handler, in the order they were added.
    pub open spec fn handler_routes(&self) -> Seq<Seq<char>> {
        keys_of(self.handlers@)
    }

    /// The routes with a sub-router, in the order they were added.
    pub open spec fn sub_routes(&self) -> Seq<Seq<char>> {
        keys_of(self.subhandlers@)
    }

    /// The sub-router at position `i` of `sub_routes`.
    pub open spec fn sub_at(&self, i: int) -> RouteHandler {
        *self.subhandlers@[i].1
    }

    /// No route has two handlers, and none has two sub-routers.
    pub open spec fn unique_routes(&self) -> bool {
        self.handler_routes().no_duplicates() && self.sub_routes().no_duplicates()
    }

    /// Where this router sends `data`.
    pub open spec fn dispatch(&self, data: Seq<u8>) -> Dispatch
        decreases self,
    {
        let (route, payload) = split_request(data);
        if self.handler_routes().contains(route) {
            Dispatch::Reached(seq![route], payload)
        } else {
            match first_index(self.sub_routes(), route) {
                Some(i) => {
                    if 0 <= i < self.subhandlers@.len() {
                        match self.subhandlers@[i].1.dispatch(payload) {
                            Dispatch::Reached(path, rest) => Dispatch::Reached(seq![route] + path, rest),
                            Dispatch::Unhandled(r) => Dispatch::Unhandled(r),
                        }
                    } else {
                        Dispatch::Unhandled(route)
                    }
                },
                None => Dispatch::Unhandled(route),
            }
        }
    }

    /// Whether `res` is how this router answers `request`: by the answer of
    /// the handler under the request's route, with the rest of the request;
    /// else by the answer of the sub-router under that route, to the rest;
    /// else by refusing the route.
    pub open spec fn route_answers(&self, request: Seq<u8>, res: Result<Vec<u8>, HandleError>) -> bool
        decreases self,
    {
        let (route, payload) = split_request(request);
        match first_index(self.handler_routes(), route) {
            Some(i) => {
                if 0 <= i < self.handlers@.len() {
                    self.handlers@[i].1.answers(payload, res)
                } else {
                    false
                }
            },
            None => match first_index(self.sub_routes(), route) {
                Some(i) => {
                    if 0 <= i < self.subhandlers@.len() {
                        self.subhandlers@[i].1.route_answers(payload, res)
                    } else {
                        false
                    }
                },
                None => res matches Err(HandleError::UnhandledRoute(r)) && r@ == route,
            },
        }
    }

    /// A router with no routes.
    pub fn new() -> (router: Self)
        ensures
            router.handler_routes() == Seq::<Seq<char>>::empty(),
            router.sub_routes() == Seq::<Seq<char>>::empty(),
            router.unique_routes(),
    {
        let router = RouteHandler { subhandlers: Vec::new(), handlers: Vec::new() };
        assert(router.handler_routes() =~= Seq::<Seq<char>>::empty());
        assert(router.sub_routes() =~= Seq::<Seq<char>>::empty());
        router
    }
}

} // verus!

verus! {

impl RouteHandler {
    /// Registers `handler` under `route`, unless a handler is registered
    /// there already; gives back the handler that the route has now.
    pub fn add_route(&mut self, route: &str, handler: Box<dyn ServerHandler>) -> (r: &mut Box<
        dyn ServerHandler,
    >)
        ensures
            old(self).handler_routes().contains(route@) ==> final(self).handler_routes()
                == old(self).handler_routes(),
            !old(self).handler_routes().contains(route@) ==> final(self).handler_routes()
                == old(self).handler_routes().push(route@),
            old(self).handler_routes().contains(route@) ==> *r == old(self).handlers@[first_index(
                old(self).handler_routes(),
                route@,
            )->0].1,
            !old(self).handler_routes().contains(route@) ==> *r == handler,
            first_index(final(self).handler_routes(), route@) is Some,
            final(self).handlers@[first_index(final(self).handler_routes(), route@)->0].1
                == *final(r),
            forall|j: int|
                0 <= j < old(self).handlers@.len() && Some(j) != first_index(
                    old(self).handler_routes(),
                    route@,
                ) ==> #[trigger] final(self).handlers@[j] == old(self).handlers@[j],
            final(self).subhandlers == old(self).subhandlers,
            old(self).unique_routes() ==> final(self).unique_routes(),
    {
        proof { lemma_push_absent_no_duplicates(self.handler_routes(), route@); }
        let key = route.to_owned();
        proof { lemma_first_index(self.handler_routes(), key@); }
        let idx = match position_of(&self.handlers, &key) {
            Some(i) => i,
            None => {
                let ghost before = self.handlers@;
                let item = (key, handler);
                self.handlers.push(item);
                assert(self.handlers@ == before.push(item));
                let n: usize = self.handlers.len() - 1;
                proof {
                    assert(self.handler_routes() =~= old(self).handler_routes().push(route@));
                    lemma_first_index(self.handler_routes(), route@);
                    assert(self.handler_routes()[n as int] == route@);
                    let k = first_index(self.handler_routes(), route@)->0;
                    if k < n {
                        assert(old(self).handler_routes()[k] == route@);
                    }
                    assert(first_index(self.handler_routes(), route@) == Some(n as int));
                }
                n
            },
        };
        assert(first_index(self.handler_routes(), route@) == Some(idx as int));
        entry_value_mut(&mut self.handlers, idx)
    }

    /// The handler registered under `route`, if there is one.
    pub fn get_route(&mut self, route: &str) -> (res: Option<&mut Box<dyn ServerHandler>>)
        ensures
            res is Some <==> old(self).handler_routes().contains(route@),
            final(self).handler_routes() == old(self).handler_routes(),
            res matches Some(h) ==> *h == old(self).handlers@[first_index(
                old(self).handler_routes(),
                route@,
            )->0].1 && final(self).handlers@[first_index(old(self).handler_routes(), route@)->0].1
                == *final(h),
            forall|j: int|
                0 <= j < old(self).handlers@.len() && Some(j) != first_index(
                    old(self).handler_routes(),
                    route@,
                ) ==> #[trigger] final(self).handlers@[j] == old(self).handlers@[j],
            final(self).subhandlers == old(self).subhandlers,
            old(self).unique_routes() ==> final(self).unique_routes(),
    {
        let key = route.to_owned();
        proof { lemma_first_index(self.handler_routes(), key@); }
        match position_of(&self.handlers, &key) {
            Some(i) => Some(entry_value_mut(&mut self.handlers, i)),
            None => None,
        }
    }

    /// The sub-router under `route`, which is added, with no routes, if there
    /// is none yet.
    pub fn sub_route(&mut self, route: &str) -> (r: &mut Box<RouteHandler>)
        ensures
            old(self).sub_routes().contains(route@) ==> final(self).sub_routes()
                == old(self).sub_routes(),
            old(self).sub_routes().contains(route@) ==> **r == old(self).sub_at(
                first_index(old(self).sub_routes(), route@)->0,
            ),
            !old(self).sub_routes().contains(route@) ==> final(self).sub_routes()
                == old(self).sub_routes().push(route@),
            !old(self).sub_routes().contains(route@) ==> r.handler_routes() == Seq::<
                Seq<char>,
            >::empty() && r.sub_routes() == Seq::<Seq<char>>::empty(),
            first_index(final(self).sub_routes(), route@) is Some,
            final(self).sub_at(first_index(final(self).sub_routes(), route@)->0) == **final(r),
            forall|i: int|
                0 <= i < old(self).sub_routes().len() && Some(i) != first_index(
                    old(self).sub_routes(),
                    route@,
                ) ==> #[trigger] final(self).sub_at(i) == old(self).sub_at(i),
            final(self).handler_routes() == old(self).handler_routes(),
            old(self).unique_routes() ==> final(self).unique_routes(),
    {
        proof { lemma_push_absent_no_duplicates(self.sub_routes(), route@); }
        let key = route.to_owned();
        proof { lemma_first_index(self.sub_routes(), key@); }
        let idx = match position_of(&self.subhandlers, &key) {
            Some(i) => i,
            None => {
                let item = (key, Box::new(RouteHandler::new()));
                self.subhandlers.push(item);
                let n: usize = self.subhandlers.len() - 1;
                proof {
                    assert(self.sub_routes() =~= old(self).sub_routes().push(route@));
                    lemma_first_index(self.sub_routes(), route@);
                    assert(self.sub_routes()[n as int] == route@);
                    let k = first_index(self.sub_routes(), route@)->0;
                    if k < n {
                        assert(old(self).sub_routes()[k] == route@);
                    }
                    assert(first_index(self.sub_routes(), route@) == Some(n as int));
                }
                n
            },
        };
        assert(first_index(self.sub_routes(), route@) == Some(idx as int));
        entry_value_mut(&mut self.subhandlers, idx)
    }

    /// Two routers with the same routes whose sub-routers send every request
    /// to the same place send every request to the same place.
    proof fn lemma_dispatch_congruent(a: RouteHandler, b: RouteHandler)
        requires
            a.handler_routes() == b.handler_routes(),
            a.sub_routes() == b.sub_routes(),
            forall|i: int, d: Seq<u8>|
                0 <= i < a.sub_routes().len() ==> #[trigger] a.sub_at(i).dispatch(d)
                    == b.sub_at(i).dispatch(d),
        ensures
            forall|d: Seq<u8>| #[trigger] a.dispatch(d) == b.dispatch(d),
    {
        assert forall|d: Seq<u8>| #[trigger] a.dispatch(d) == b.dispatch(d) by {
            let (route, payload) = split_request(d);
            if !a.handler_routes().contains(route) {
                if let Some(i) = first_index(a.sub_routes(), route) {
                    if 0 <= i < a.subhandlers@.len() {
                        assert(a.sub_at(i).dispatch(payload) == b.sub_at(i).dispatch(payload));
                    }
                }
            }
        }
    }
}

impl ServerHandler for RouteHandler {
    open spec fn answers(&self, request: Seq<u8>, res: Result<Vec<u8>, HandleError>) -> bool {
        self.route_answers(request, res)
    }

    /// Passes the request on by its route (see `dispatch`); a request whose
    /// route names neither a handler nor a sub-router is refused with
    /// `UnhandledRoute` and that route. The routes stay as they are.
    fn handle(&mut self, request: &[u8]) -> (res: Result<Vec<u8>, HandleError>)
        ensures
            old(self).dispatch(request@) matches Dispatch::Unhandled(r) ==> (res matches Err(
                HandleError::UnhandledRoute(s),
            ) && s@ == r),
            final(self).handler_routes() == old(self).handler_routes(),
            final(self).sub_routes() == old(self).sub_routes(),
            old(self).unique_routes() ==> final(self).unique_routes(),
            forall|d: Seq<u8>| #[trigger] final(self).dispatch(d) == old(self).dispatch(d),
        decreases *old(self),
    {
        let (payload, route) = get_route(request);
        proof { encode_utf8_decode_utf8(route@); }
        let key = route.to_owned();
        assert(split_request(request@) == (key@, payload@));
        proof {
            lemma_first_index(self.handler_routes(), key@);
            lemma_first_index(self.sub_routes(), key@);
        }
        match position_of(&self.handlers, &key) {
            Some(i) => {
                assert(self.handler_routes().contains(key@));
                let entry = &mut self.handlers[i];
                let res = entry.1.handle(payload);
                proof {
                    assert(self.handler_routes() =~= old(self).handler_routes());
                    RouteHandler::lemma_dispatch_congruent(*self, *old(self));
                }
                res
            },
            None => {
                match position_of(&self.subhandlers, &key) {
                    Some(i) => {
                        let entry = &mut self.subhandlers[i];
                        let res = entry.1.handle(payload);
                        proof {
                            assert(self.sub_routes() =~= old(self).sub_routes());
                            assert forall|j: int, d: Seq<u8>|
                                0 <= j < self.sub_routes().len() implies #[trigger] self.sub_at(
                                j,
                            ).dispatch(d) == old(self).sub_at(j).dispatch(d) by {
                                if j != i {
                                    assert(self.subhandlers@[j] == old(self).subhandlers@[j]);
                                }
                            }
                            RouteHandler::lemma_dispatch_congruent(*self, *old(self));
                        }
                        res
                    },
                    None => {
                        proof { RouteHandler::lemma_dispatch_congruent(*self, *old(self)); }
                        Err(HandleError::UnhandledRoute(key))
                    },
                }
            },
        }
    }
}

} // verus!

verus! {

/// The place a sub-router sends a request, seen from the router above it,
/// which reached the sub-router by `route`.
pub open spec fn through(route: Seq<char>, inner: Dispatch) -> Dispatch {
    match inner {
        Dispatch::Reached(path, rest) => Dispatch::Reached(seq![route] + path, rest),
        Dispatch::Unhandled(r) => Dispatch::Unhandled(r),
    }
}

/// A request framed by `add_route` with a route without the NUL character is
/// taken apart into that route and the payload.
pub proof fn lemma_split_framed(route: Seq<char>, payload: Seq<u8>)
    requires
        !route.contains('\0'),
    ensures
        split_request(framed(encode_utf8(route), payload)) == (route, payload),
{
    lemma_get_route_of_add_route(route, payload);
    encode_utf8_decode_utf8(route);
}

impl RouteHandler {
    /// A request framed with `route` goes to the handler under `route` if
    /// there is one; else through the sub-router under `route` if there is
    /// one, which reads the payload as a request of its own; else nowhere.
    pub proof fn lemma_dispatch_framed(&self, route: Seq<char>, payload: Seq<u8>)
        requires
            !route.contains('\0'),
        ensures
            self.handler_routes().contains(route) ==> self.dispatch(
                framed(encode_utf8(route), payload),
            ) == Dispatch::Reached(seq![route], payload),
            !self.handler_routes().contains(route) ==> (first_index(self.sub_routes(), route)
                matches Some(i) ==> self.dispatch(framed(encode_utf8(route), payload)) == through(
                route,
                self.sub_at(i).dispatch(payload),
            )),
            !self.handler_routes().contains(route) && !self.sub_routes().contains(route)
                ==> self.dispatch(framed(encode_utf8(route), payload)) == Dispatch::Unhandled(
                route,
            ),
    {
        lemma_split_framed(route, payload);
        lemma_first_index(self.sub_routes(), route);
    }

    /// The answer to a request framed with `route` is the answer of the first
    /// handler under `route` to the payload; where there is none, that of the
    /// sub-router under `route`; where there is none either, the refusal of
    /// `route`.
    pub proof fn lemma_answer_framed(
        &self,
        route: Seq<char>,
        payload: Seq<u8>,
        res: Result<Vec<u8>, HandleError>,
    )
        requires
            !route.contains('\0'),
        ensures
            first_index(self.handler_routes(), route) matches Some(i) ==> (self.answers(
                framed(encode_utf8(route), payload),
                res,
            ) <==> self.handlers@[i].1.answers(payload, res)),
            !self.handler_routes().contains(route) ==> (first_index(self.sub_routes(), route)
                matches Some(i) ==> (self.answers(framed(encode_utf8(route), payload), res)
                <==> self.sub_at(i).answers(payload, res))),
            !self.handler_routes().contains(route) && !self.sub_routes().contains(route) ==> (
            self.answers(framed(encode_utf8(route), payload), res) <==> (res matches Err(
                HandleError::UnhandledRoute(r),
            ) && r@ == route)),
    {
        lemma_split_framed(route, payload);
        lemma_first_index(self.handler_routes(), route);
        lemma_first_index(self.sub_routes(), route);
    }
}

impl RouteHandler {
    /// A router without routes refuses every request, by the route that the
    /// request names (the empty route where it names none).
    pub proof fn lemma_no_routes_refuses(
        &self,
        request: Seq<u8>,
        res: Result<Vec<u8>, HandleError>,
    )
        requires
            self.handler_routes().len() == 0,
            self.sub_routes().len() == 0,
        ensures
            self.dispatch(request) == Dispatch::Unhandled(split_request(request).0),
            self.answers(request, res) <==> (res matches Err(HandleError::UnhandledRoute(r)) && r@
                == split_request(request).0),
    {
        let route = split_request(request).0;
        lemma_first_index(self.handler_routes(), route);
        lemma_first_index(self.sub_routes(), route);
    }
}

impl Clone for RouteHandler {
    /// A router with no routes: handlers are not copied.
    fn clone(&self) -> (router: Self)
        ensures
            router.handler_routes() == Seq::<Seq<char>>::empty(),
            router.sub_routes() == Seq::<Seq<char>>::empty(),
            router.unique_routes(),
    {
        RouteHandler::new()
    }
}

} // verus!
