use vstd::prelude::*;
use crate::node::Node;

verus! {

/// Options for a send; there are none yet.
pub struct SendOptions {}

impl SendOptions {
    /// The default options.
    pub fn new() -> (options: Self)
        ensures
            options == (SendOptions {}),
    {
        Self::default()
    }
}

impl Default for SendOptions {
    fn default() -> (options: Self)
        ensures
            options == (SendOptions {}),
    {
        SendOptions {}
    }
}

/// Keeps track of which connections of a send have a response ready.
///
/// There is one slot per connection. A connection that finishes (with a
/// response or with an error) is reported once with `add`; `get` hands out
/// the reported connections in the order they were reported.
pub struct ResponseRouter {
    responses: Vec<usize>,
    handed_out: usize,
    reported: usize,
    open_sockets: usize,
}

impl ResponseRouter {
    /// Every connection is open or reported, no connection is reported
    /// twice, and only reported ones are handed out.
    pub closed spec fn wf(&self) -> bool {
        &&& self.handed_out <= self.reported
        &&& self.reported + self.open_sockets == self.responses@.len()
        &&& self.reported().no_duplicates()
        &&& forall|k: int| 0 <= k < self.reported ==> #[trigger] self.responses@[k] < self.responses@.len()
    }

    /// The connections reported so far, in the order reported.
    pub closed spec fn reported(&self) -> Seq<usize> {
        self.responses@.take(self.reported as int)
    }

    /// How many of the reported connections have been handed out.
    pub closed spec fn handed_out(&self) -> nat {
        self.handed_out as nat
    }

    /// The connections reported and not yet handed out, in the order reported.
    pub closed spec fn pending(&self) -> Seq<usize> {
        self.responses@.subrange(self.handed_out as int, self.reported as int)
    }

    /// How many connections have not been reported yet.
    pub closed spec fn open(&self) -> nat {
        self.open_sockets as nat
    }

    /// How many connections the router was made for.
    pub closed spec fn capacity(&self) -> nat {
        self.responses@.len()
    }

    /// The pending connections are the reported ones not yet handed out; each
    /// connection is open, pending or handed out; and no connection is
    /// reported twice.
    pub proof fn lemma_accounting(&self)
        requires
            self.wf(),
        ensures
            self.pending() == self.reported().skip(self.handed_out() as int),
            self.handed_out() <= self.reported().len(),
            self.pending().len() + self.open() + self.handed_out() == self.capacity(),
            self.reported().no_duplicates(),
            forall|k: int| 0 <= k < self.reported().len() ==> #[trigger] self.reported()[k] < self.capacity(),
    {
        assert(self.pending() =~= self.reported().skip(self.handed_out() as int));
    }

    /// A router for `n` connections, none of them reported.
    pub fn new(n: usize) -> (router: Self)
        ensures
            router.wf(),
            router.reported() == Seq::<usize>::empty(),
            router.handed_out() == 0,
            router.pending() == Seq::<usize>::empty(),
            router.open() == n,
            router.capacity() == n,
    {
        let responses = vec![0usize; n];
        let router = ResponseRouter { responses: responses, handed_out: 0, reported: 0, open_sockets: n };
        assert(router.pending() =~= Seq::<usize>::empty());
        assert(router.reported() =~= Seq::<usize>::empty());
        router
    }

    /// Reports connection `i` as finished.
    pub fn add(&mut self, i: usize)
        requires
            old(self).wf(),
            old(self).open() > 0,
            i < old(self).capacity(),
            !old(self).reported().contains(i),
        ensures
            final(self).wf(),
            final(self).reported() == old(self).reported().push(i),
            final(self).handed_out() == old(self).handed_out(),
            final(self).pending() == old(self).pending().push(i),
            final(self).open() == old(self).open() - 1,
            final(self).capacity() == old(self).capacity(),
    {
        let p: usize = self.reported;
        assert(p < self.responses@.len());
        self.responses.set(p, i);
        assert(p < self.responses.len());
        self.reported = p + 1;
        self.open_sockets = self.open_sockets - 1;
        assert(self.reported() =~= old(self).reported().push(i));
        assert(self.pending() =~= old(self).pending().push(i));
        assert forall|a: int, b: int|
            0 <= a < self.reported().len() && 0 <= b < self.reported().len() && a != b implies self.reported()[a]
                != self.reported()[b] by {
            if a < p && b < p {
                assert(old(self).reported()[a] != old(self).reported()[b]);
            } else if a < p {
                assert(old(self).reported()[a] == self.reported()[a]);
                assert(old(self).reported().contains(self.reported()[a]));
            } else if b < p {
                assert(old(self).reported()[b] == self.reported()[b]);
                assert(old(self).reported().contains(self.reported()[b]));
            }
        }
        assert forall|k: int| 0 <= k < self.reported implies #[trigger] self.responses@[k]
            < self.responses@.len() by {
            if k < p {
                assert(self.responses@[k] == old(self).responses@[k]);
            }
        }
    }

    /// Hands out the earliest reported connection that was not handed out
    /// yet, if there is one.
    pub fn get(&mut self) -> (res: Option<usize>)
        requires
            old(self).wf(),
        ensures
            final(self).wf(),
            final(self).reported() == old(self).reported(),
            old(self).pending().len() > 0 ==> res == Some(old(self).pending()[0])
                && final(self).pending() == old(self).pending().drop_first()
                && final(self).handed_out() == old(self).handed_out() + 1,
            old(self).pending().len() == 0 ==> res is None && final(self).pending()
                == old(self).pending() && final(self).handed_out() == old(self).handed_out(),
            final(self).open() == old(self).open(),
            final(self).capacity() == old(self).capacity(),
    {
        if self.handed_out < self.reported {
            let i: usize = self.responses[self.handed_out];
            self.handed_out = self.handed_out + 1;
            assert(self.pending() =~= old(self).pending().drop_first());
            Some(i)
        } else {
            None
        }
    }

    /// Whether connection `i` has been reported.
    pub fn was_reported(&self, i: usize) -> (res: bool)
        requires
            self.wf(),
        ensures
            res == self.reported().contains(i),
    {
        let mut k: usize = 0;
        while k < self.reported
            invariant
                self.wf(),
                0 <= k <= self.reported,
                forall|j: int| 0 <= j < k ==> self.reported()[j] != i,
            decreases self.reported - k,
        {
            if self.responses[k] == i {
                assert(self.reported()[k as int] == i);
                return true;
            }
            k = k + 1;
        }
        false
    }

    /// How many connections the router was made for.
    pub fn slots(&self) -> (n: usize)
        ensures
            n == self.capacity(),
    {
        self.responses.len()
    }

    /// Whether every connection has been reported.
    pub fn done(&self) -> (res: bool)
        ensures
            res == (self.open() == 0),
    {
        self.open_sockets == 0
    }
}

/// The connection slot that a poll token stands for. A token is the address
/// of a slot in an array of `len` slots of `slot_size` bytes that starts at
/// `base`; a token that is no such address stands for no slot.
pub open spec fn spec_slot(token: int, base: int, slot_size: int, len: int) -> Option<int> {
    if base <= token && (token - base) % slot_size == 0 && (token - base) / slot_size < len {
        Some((token - base) / slot_size)
    } else {
        None
    }
}

/// The connection slot that `token` stands for (see `spec_slot`).
pub fn connection_slot(token: usize, base: usize, slot_size: usize, len: usize) -> (res: Option<usize>)
    requires
        slot_size > 0,
    ensures
        res matches Some(i) ==> spec_slot(token as int, base as int, slot_size as int, len as int)
            == Some(i as int),
        res is None ==> spec_slot(token as int, base as int, slot_size as int, len as int) is None,
{
    if base > token {
        return None;
    }
    let offset: usize = token - base;
    if offset % slot_size != 0 {
        return None;
    }
    let i: usize = offset / slot_size;
    if i >= len {
        return None;
    }
    Some(i)
}

/// The token of slot `i` stands for slot `i`.
pub proof fn lemma_slot_of_slot_address(base: int, slot_size: int, len: int, i: int)
    requires
        slot_size > 0,
        0 <= i < len,
    ensures
        spec_slot(base + i * slot_size, base, slot_size, len) == Some(i),
{
    assert((i * slot_size) % slot_size == 0 && (i * slot_size) / slot_size == i) by (nonlinear_arith)
        requires slot_size > 0, i >= 0;
    assert(i * slot_size >= 0) by (nonlinear_arith)
        requires slot_size > 0, i >= 0;
}

/// What to do with a connection's poll registration after an event.
pub enum Registration {
    /// Leave it as it is.
    Keep,
    /// Wait for the connection to become readable.
    Readable,
    /// Take the connection out of the poll: it is finished.
    Deregister,
}

impl ResponseRouter {
    /// The decision after a write attempt on connection `i`: `None` when the
    /// data is not all written yet, `Some(true)` when it is, `Some(false)`
    /// when writing failed. A failed connection is reported and leaves the
    /// poll; a written one waits for its response.
    pub fn after_write(&mut self, i: usize, outcome: Option<bool>) -> (reg: Registration)
        requires
            old(self).wf(),
            outcome == Some(false) ==> old(self).open() > 0,
            outcome == Some(false) ==> i < old(self).capacity() && !old(self).reported().contains(i),
        ensures
            outcome is None ==> reg == Registration::Keep && *final(self) == *old(self),
            outcome == Some(true) ==> reg == Registration::Readable && *final(self) == *old(self),
            outcome == Some(false) ==> reg == Registration::Deregister
                && final(self).reported() == old(self).reported().push(i)
                && final(self).handed_out() == old(self).handed_out()
                && final(self).pending() == old(self).pending().push(i)
                && final(self).open() == old(self).open() - 1
                && final(self).capacity() == old(self).capacity(),
            final(self).wf(),
    {
        match outcome {
            None => Registration::Keep,
            Some(true) => Registration::Readable,
            Some(false) => {
                self.add(i);
                Registration::Deregister
            },
        }
    }

    /// The decision after a read on connection `i`: a connection whose
    /// response is complete (or failed) is reported and leaves the poll.
    pub fn after_read(&mut self, i: usize, complete: bool) -> (reg: Registration)
        requires
            old(self).wf(),
            complete ==> old(self).open() > 0,
            complete ==> i < old(self).capacity() && !old(self).reported().contains(i),
        ensures
            !complete ==> reg == Registration::Keep && *final(self) == *old(self),
            complete ==> reg == Registration::Deregister
                && final(self).reported() == old(self).reported().push(i)
                && final(self).handed_out() == old(self).handed_out()
                && final(self).pending() == old(self).pending().push(i)
                && final(self).open() == old(self).open() - 1
                && final(self).capacity() == old(self).capacity(),
            final(self).wf(),
    {
        if complete {
            self.add(i);
            Registration::Deregister
        } else {
            Registration::Keep
        }
    }
}

/// The servers that a request is sent to.
pub struct Configuration<NIDT> {
    nodes: Vec<Node<NIDT>>,
}

impl<NIDT> View for Configuration<NIDT> {
    type V = Seq<Node<NIDT>>;

    closed spec fn view(&self) -> Seq<Node<NIDT>> {
        self.nodes@
    }
}

impl<NIDT> Default for Configuration<NIDT> {
    fn default() -> (cfg: Self)
        ensures
            cfg@ == Seq::<Node<NIDT>>::empty(),
    {
        Configuration { nodes: Vec::new() }
    }
}

impl<NIDT: Clone> Configuration<NIDT> {
    /// One node per address, with the id given beside it, in order.
    pub fn new(addrs: &[(String, NIDT)]) -> (cfg: Self)
        ensures
            cfg@.len() == addrs@.len(),
            forall|i: int| 0 <= i < addrs@.len() ==> #[trigger] cfg@[i].addr == addrs@[i].0
                && cloned(addrs@[i].1, cfg@[i].id),
    {
        let mut nodes: Vec<Node<NIDT>> = Vec::new();
        let mut i: usize = 0;
        while i < addrs.len()
            invariant
                0 <= i <= addrs@.len(),
                nodes@.len() == i,
                forall|j: int| 0 <= j < i ==> #[trigger] nodes@[j].addr == addrs@[j].0
                    && cloned(addrs@[j].1, nodes@[j].id),
            decreases addrs@.len() - i,
        {
            let entry = &addrs[i];
            let node = Node::new(entry.0.clone(), entry.1.clone());
            nodes.push(node);
            i = i + 1;
        }
        Configuration { nodes: nodes }
    }
}

impl<NIDT> Configuration<NIDT> {
    /// The nodes, in the order they were given.
    pub fn nodes(&self) -> (nodes: &[Node<NIDT>])
        ensures
            nodes@ == self@,
    {
        self.nodes.as_slice()
    }
}

} // verus!

verus! {

/// Connections are handed out in the order they were reported: after
/// reporting `i`, what is pending hands out what was pending before first,
/// and `i` last.
pub proof fn lemma_first_reported_first_out(pending: Seq<usize>, i: usize)
    ensures
        pending.len() > 0 ==> pending.push(i)[0] == pending[0]
            && pending.push(i).drop_first() == pending.drop_first().push(i),
        pending.len() == 0 ==> pending.push(i)[0] == i && pending.push(i).drop_first()
            == pending,
{
    assert(pending.len() > 0 ==> pending.push(i).drop_first() =~= pending.drop_first().push(i));
    assert(pending.len() == 0 ==> pending.push(i).drop_first() =~= pending);
}

} // verus!
