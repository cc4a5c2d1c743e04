use vstd::prelude::*;

verus! {

/// A server that requests are sent to: its socket address and the caller's
/// name for it.
pub struct Node<NIDT> {
    pub addr: String,
    pub id: NIDT,
}

impl<NIDT> Node<NIDT> {
    /// A node with the given address and id.
    pub fn new(addr: String, id: NIDT) -> (node: Self)
        ensures
            node.addr == addr,
            node.id == id,
    {
        Node { addr: addr, id: id }
    }
}

} // verus!

verus! {

/// The kinds of failed socket read or write that a connection tells apart.
pub enum IoFailure {
    /// The call was interrupted before it did anything.
    Interrupted,
    /// The socket is not connected yet.
    NotConnected,
    /// The call would have blocked.
    WouldBlock,
    /// Any other failure.
    Other,
}

/// The request a connection sends, and how much of it is written.
pub struct WriteProgress {
    data: Vec<u8>,
    bytes_written: usize,
}

impl WriteProgress {
    /// At most all of the request is written.
    pub closed spec fn wf(&self) -> bool {
        self.bytes_written <= self.data@.len()
    }

    /// The request.
    pub closed spec fn data(&self) -> Seq<u8> {
        self.data@
    }

    /// How many bytes of the request are written.
    pub closed spec fn written(&self) -> nat {
        self.bytes_written as nat
    }

    /// Nothing of `data` written yet.
    pub fn new(data: Vec<u8>) -> (w: Self)
        ensures
            w.wf(),
            w.data() == data@,
            w.written() == 0,
    {
        WriteProgress { data: data, bytes_written: 0 }
    }

    /// Whether all of the request is written.
    pub fn is_complete(&self) -> (res: bool)
        requires
            self.wf(),
        ensures
            res == (self.written() == self.data().len()),
    {
        self.bytes_written == self.data.len()
    }

    /// The part of the request that is still to be written.
    pub fn unwritten(&self) -> (rest: &[u8])
        requires
            self.wf(),
        ensures
            rest@ == self.data().skip(self.written() as int),
    {
        let rest = vstd::slice::slice_subrange(
            self.data.as_slice(),
            self.bytes_written,
            self.data.len(),
        );
        assert(rest@ =~= self.data().skip(self.written() as int));
        rest
    }

    /// Records that the next `n` bytes were written.
    pub fn wrote(&mut self, n: usize)
        requires
            old(self).wf(),
            n <= old(self).data().len() - old(self).written(),
        ensures
            final(self).wf(),
            final(self).data() == old(self).data(),
            final(self).written() == old(self).written() + n,
    {
        assert(self.data@.len() == self.data.len());
        self.bytes_written = self.bytes_written + n;
    }
}

/// What a connection's write step answers when the socket refuses a write:
/// `None` (try again later) when the socket is not connected yet or would
/// block, `Some(false)` (the request failed) otherwise.
pub fn after_write_failure(kind: IoFailure) -> (outcome: Option<bool>)
    ensures
        outcome == (match kind {
            IoFailure::NotConnected | IoFailure::WouldBlock => None,
            _ => Some(false),
        }),
{
    match kind {
        IoFailure::NotConnected => None,
        IoFailure::WouldBlock => None,
        _ => Some(false),
    }
}

/// What a connection does when the socket refuses a read.
pub enum ReadStep {
    /// Read again at once.
    Retry,
    /// Wait for the socket to become readable again.
    Wait,
    /// The response failed.
    Fail,
}

/// The step after a refused read: retry an interrupted read, wait when the
/// socket is not connected or would block, and fail otherwise.
pub fn after_read_failure(kind: IoFailure) -> (step: ReadStep)
    ensures
        step == (match kind {
            IoFailure::Interrupted => ReadStep::Retry,
            IoFailure::NotConnected | IoFailure::WouldBlock => ReadStep::Wait,
            IoFailure::Other => ReadStep::Fail,
        }),
{
    match kind {
        IoFailure::Interrupted => ReadStep::Retry,
        IoFailure::NotConnected => ReadStep::Wait,
        IoFailure::WouldBlock => ReadStep::Wait,
        IoFailure::Other => ReadStep::Fail,
    }
}

/// How much a response buffer grows by, and starts with.
pub const READ_CHUNK: usize = 4096;

/// The response a connection receives: a buffer of which the first
/// `bytes_read` bytes are received, with room left for at least one more.
pub struct ReadBuffer {
    buf: Vec<u8>,
    bytes_read: usize,
}

impl ReadBuffer {
    /// There is always room for at least one more byte.
    pub closed spec fn wf(&self) -> bool {
        self.bytes_read < self.buf@.len()
    }

    /// The bytes received so far.
    pub closed spec fn received(&self) -> Seq<u8> {
        self.buf@.take(self.bytes_read as int)
    }

    /// The size of the buffer.
    pub closed spec fn capacity(&self) -> nat {
        self.buf@.len()
    }

    /// An empty buffer with room for `READ_CHUNK` bytes.
    pub fn new() -> (r: Self)
        ensures
            r.wf(),
            r.received() == Seq::<u8>::empty(),
            r.capacity() == READ_CHUNK,
    {
        let r = ReadBuffer { buf: vec![0u8; READ_CHUNK], bytes_read: 0 };
        assert(r.received() =~= Seq::<u8>::empty());
        r
    }

    /// How many bytes the next read may take.
    pub fn spare(&self) -> (n: usize)
        requires
            self.wf(),
        ensures
            n == self.capacity() - self.received().len(),
            n > 0,
    {
        self.buf.len() - self.bytes_read
    }

    /// The size of the buffer.
    pub fn size(&self) -> (n: usize)
        ensures
            n == self.capacity(),
    {
        self.buf.len()
    }

    /// Takes the bytes of one read. An empty read means the response is
    /// complete: `true` is returned and nothing changes. Otherwise the bytes
    /// are received, and a buffer that has become full grows by `READ_CHUNK`.
    pub fn receive(&mut self, chunk: &[u8]) -> (complete: bool)
        requires
            old(self).wf(),
            chunk@.len() <= old(self).capacity() - old(self).received().len(),
            old(self).capacity() + READ_CHUNK <= usize::MAX,
        ensures
            final(self).wf(),
            complete == (chunk@.len() == 0),
            complete ==> *final(self) == *old(self),
            !complete ==> final(self).received() == old(self).received() + chunk@,
            !complete ==> final(self).capacity() == if old(self).received().len() + chunk@.len()
                == old(self).capacity() {
                old(self).capacity() + READ_CHUNK
            } else {
                old(self).capacity() as int
            },
    {
        let n: usize = chunk.len();
        if n == 0 {
            return true;
        }
        let start: usize = self.bytes_read;
        let mut j: usize = 0;
        while j < n
            invariant
                n == chunk@.len(),
                start == old(self).bytes_read,
                start + n <= self.buf.len(),
                self.buf@.len() == old(self).buf@.len(),
                0 <= j <= n,
                self.buf@.take(start as int) == old(self).buf@.take(start as int),
                forall|k: int| 0 <= k < j ==> self.buf@[start + k] == chunk@[k],
            decreases n - j,
        {
            self.buf.set(start + j, chunk[j]);
            assert(self.buf@.take(start as int) =~= old(self).buf@.take(start as int));
            j = j + 1;
        }
        self.bytes_read = start + n;
        assert(self.buf@.take(self.bytes_read as int) =~= old(self).received() + chunk@) by {
            assert forall|k: int| 0 <= k < self.bytes_read implies #[trigger] self.buf@[k] == (
            old(self).received() + chunk@)[k] by {
                if k < start {
                    assert(self.buf@[k] == self.buf@.take(start as int)[k]);
                    assert(old(self).buf@[k] == old(self).buf@.take(start as int)[k]);
                } else {
                    assert(self.buf@[start + (k - start)] == chunk@[k - start]);
                }
            }
        }
        if self.bytes_read == self.buf.len() {
            let len: usize = self.buf.len();
            let ghost before = self.buf@;
            self.buf.resize(len + READ_CHUNK, 0u8);
            assert(self.buf@.take(self.bytes_read as int) =~= before.take(self.bytes_read as int));
        }
        false
    }

    /// The bytes received.
    pub fn finish(self) -> (data: Vec<u8>)
        requires
            self.wf(),
        ensures
            data@ == self.received(),
    {
        let mut buf = self.buf;
        buf.truncate(self.bytes_read);
        buf
    }
}

} // verus!
