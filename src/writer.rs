use vstd::prelude::*;

verus! {

/// Why a write or a flush on a [`Writer`] was refused.
#[derive(Debug, Clone, Copy, PartialEq, Eq, Structural)]
pub enum WriteError {
    /// The spill buffer used while disconnected has no room for the bytes.
    BufferFull,
    /// The writer has been closed for good.
    Closed,
    /// The operation needs a live connection and there is none.
    NotConnected,
}

/// Fixed-capacity spill buffer that collects outbound bytes while no
/// connection is up.
#[derive(Debug)]
pub struct DisconnectWriter {
    buf: Vec<u8>,
    len: usize,
}

impl DisconnectWriter {
    pub closed spec fn wf(&self) -> bool {
        self.len <= self.buf@.len()
    }

    /// The bytes accepted so far, oldest first.
    pub closed spec fn contents(&self) -> Seq<u8> {
        self.buf@.subrange(0, self.len as int)
    }

    pub closed spec fn capacity(&self) -> nat {
        self.buf@.len()
    }

    /// An empty spill buffer that can hold `buf_sz` bytes.
    pub fn new(buf_sz: usize) -> (r: DisconnectWriter)
        ensures
            r.wf(),
            r.contents() == Seq::<u8>::empty(),
            r.capacity() == buf_sz,
    {
        let r = DisconnectWriter { buf: vec![0u8; buf_sz], len: 0 };
        assert(r.contents() =~= Seq::<u8>::empty());
        r
    }

    /// Appends `data` if it fits in the remaining room; otherwise refuses it
    /// and leaves the buffer as it was.
    pub fn write(&mut self, data: &[u8]) -> (r: Result<usize, WriteError>)
        requires
            old(self).wf(),
        ensures
            final(self).wf(),
            final(self).capacity() == old(self).capacity(),
            old(self).contents().len() + data@.len() <= old(self).capacity() ==> {
                &&& r == Ok::<usize, WriteError>(data@.len() as usize)
                &&& final(self).contents() == old(self).contents() + data@
            },
            old(self).contents().len() + data@.len() > old(self).capacity() ==> {
                &&& r == Err::<usize, WriteError>(WriteError::BufferFull)
                &&& final(self).contents() == old(self).contents()
            },
    {
        if data.len() > self.buf.len() - self.len {
            return Err(WriteError::BufferFull);
        }
        let start = self.len;
        let cap = self.buf.len();
        let mut i: usize = 0;
        while i < data.len()
            invariant
                start + data@.len() <= self.buf@.len(),
                self.buf@.len() == old(self).buf@.len(),
                self.buf@.len() == cap,
                self.len == start,
                start == old(self).len,
                i <= data@.len(),
                forall|k: int| 0 <= k < start ==> self.buf@[k] == old(self).buf@[k],
                forall|k: int| 0 <= k < i ==> self.buf@[start + k] == data@[k],
            decreases data@.len() - i,
        {
            self.buf[start + i] = data[i];
            i = i + 1;
        }
        self.len = start + data.len();
        assert(self.contents() =~= old(self).contents() + data@);
        Ok(data.len())
    }

    /// A copy of the bytes accepted so far.
    pub fn buffered(&self) -> (r: Vec<u8>)
        requires
            self.wf(),
        ensures
            r@ == self.contents(),
    {
        let mut out: Vec<u8> = Vec::new();
        let mut i: usize = 0;
        while i < self.len
            invariant
                self.wf(),
                i <= self.len,
                out@ == self.buf@.subrange(0, i as int),
            decreases self.len - i,
        {
            out.push(self.buf[i]);
            assert(out@ =~= self.buf@.subrange(0, i + 1));
            i = i + 1;
        }
        out
    }
}

/// What a [`Writer`] holds, as plain values.
pub enum WriterView {
    /// Connected; `pending` waits to be flushed to the socket.
    Live { tls: bool, pending: Seq<u8> },
    /// Not connected; `spilled` is kept for the next connection.
    Disconnected { spilled: Seq<u8>, capacity: nat },
    Closed,
}

/// Effect of writing `data`: the new state, and the error if it is refused.
pub open spec fn spec_write(w: WriterView, data: Seq<u8>) -> (WriterView, Option<WriteError>) {
    match w {
        WriterView::Live { tls, pending } => (WriterView::Live { tls, pending: pending + data }, None),
        WriterView::Disconnected { spilled, capacity } => {
            if spilled.len() + data.len() <= capacity {
                (WriterView::Disconnected { spilled: spilled + data, capacity }, None)
            } else {
                (w, Some(WriteError::BufferFull))
            }
        },
        WriterView::Closed => (w, Some(WriteError::Closed)),
    }
}

/// Effect of a flush: the new state, and the bytes due on the socket.
pub open spec fn spec_flush(w: WriterView) -> (WriterView, Result<Seq<u8>, WriteError>) {
    match w {
        WriterView::Live { tls, pending } => (
            WriterView::Live { tls, pending: Seq::empty() },
            Ok(pending),
        ),
        WriterView::Disconnected { .. } => (w, Ok(Seq::empty())),
        WriterView::Closed => (w, Err(WriteError::Closed)),
    }
}

/// Effect of losing the connection.
pub open spec fn spec_disconnect(w: WriterView, reconnect_buffer_size: nat) -> WriterView {
    match w {
        WriterView::Live { .. } => WriterView::Disconnected {
            spilled: Seq::empty(),
            capacity: reconnect_buffer_size,
        },
        _ => w,
    }
}

/// Effect of closing: the closed state, and the bytes to flush before the
/// socket is shut down.
pub open spec fn spec_close(w: WriterView) -> (WriterView, Seq<u8>) {
    match w {
        WriterView::Live { pending, .. } => (WriterView::Closed, pending),
        _ => (WriterView::Closed, Seq::empty()),
    }
}

/// Effect of installing the live writer `new` for a fresh connection: the new
/// state, and the bytes that must reach the new socket before anything else
/// (what `new` already held, then the spill buffer).
pub open spec fn spec_replace(w: WriterView, new: WriterView) -> (WriterView, Result<Seq<u8>, WriteError>) {
    match (w, new) {
        (WriterView::Closed, _) => (w, Err(WriteError::Closed)),
        (WriterView::Disconnected { spilled, .. }, WriterView::Live { tls, pending }) => (
            WriterView::Live { tls, pending: Seq::empty() },
            Ok(pending + spilled),
        ),
        (_, WriterView::Live { tls, pending }) => (
            WriterView::Live { tls, pending: Seq::empty() },
            Ok(pending),
        ),
        _ => (w, Err(WriteError::NotConnected)),
    }
}

pub open spec fn result_of_write(e: Option<WriteError>, n: nat) -> Result<usize, WriteError> {
    match e {
        None => Ok(n as usize),
        Some(e) => Err(e),
    }
}

/// The bytes of an outcome, as a sequence.
pub open spec fn bytes_result(r: Result<Vec<u8>, WriteError>) -> Result<Seq<u8>, WriteError> {
    match r {
        Ok(v) => Ok(v@),
        Err(e) => Err(e),
    }
}

/// The outbound side of a session, in one of four exclusive states. A live
/// state (`Tcp` or `Tls`) holds the bytes accepted but not yet flushed to
/// its socket; `Disconnected` holds the spill buffer; `Closed` is terminal.
#[derive(Debug)]
pub enum Writer {
    Tcp(Vec<u8>),
    Tls(Vec<u8>),
    Disconnected(DisconnectWriter),
    Closed,
}

impl View for Writer {
    type V = WriterView;

    open spec fn view(&self) -> WriterView {
        match self {
            Writer::Tcp(b) => WriterView::Live { tls: false, pending: b@ },
            Writer::Tls(b) => WriterView::Live { tls: true, pending: b@ },
            Writer::Disconnected(d) => WriterView::Disconnected {
                spilled: d.contents(),
                capacity: d.capacity(),
            },
            Writer::Closed => WriterView::Closed,
        }
    }
}

impl Writer {
    pub open spec fn wf(&self) -> bool {
        match self {
            Writer::Disconnected(d) => d.wf(),
            _ => true,
        }
    }

    pub open spec fn is_live(&self) -> bool {
        self is Tcp || self is Tls
    }

    /// Accepts `data`: a live writer queues it for the socket, a disconnected
    /// one spills it while there is room, a closed one refuses it.
    pub fn write(&mut self, data: &[u8]) -> (r: Result<usize, WriteError>)
        requires
            old(self).wf(),
        ensures
            final(self).wf(),
            final(self)@ == spec_write(old(self)@, data@).0,
            r == result_of_write(spec_write(old(self)@, data@).1, data@.len()),
    {
        match self {
            Writer::Tcp(b) => {
                b.extend_from_slice(data);
                assert(b@ =~= old(self)@->pending + data@);
                Ok(data.len())
            },
            Writer::Tls(b) => {
                b.extend_from_slice(data);
                assert(b@ =~= old(self)@->pending + data@);
                Ok(data.len())
            },
            Writer::Disconnected(d) => d.write(data),
            Writer::Closed => Err(WriteError::Closed),
        }
    }

    /// Hands out the bytes that must now go to the socket. A live writer
    /// gives all it holds and keeps none; a disconnected one has nothing to
    /// send and keeps its spill buffer; a closed one refuses.
    pub fn flush(&mut self) -> (r: Result<Vec<u8>, WriteError>)
        requires
            old(self).wf(),
        ensures
            final(self).wf(),
            final(self)@ == spec_flush(old(self)@).0,
            bytes_result(r) == spec_flush(old(self)@).1,
    {
        let r = match self {
            Writer::Tcp(b) => {
                let mut out: Vec<u8> = Vec::new();
                core::mem::swap(b, &mut out);
                Ok(out)
            },
            Writer::Tls(b) => {
                let mut out: Vec<u8> = Vec::new();
                core::mem::swap(b, &mut out);
                Ok(out)
            },
            Writer::Disconnected(_) => Ok(Vec::new()),
            Writer::Closed => Err(WriteError::Closed),
        };
        assert(final(self)@ =~= spec_flush(old(self)@).0);
        r
    }

    /// Enters the disconnected state with an empty spill buffer of
    /// `reconnect_buffer_size` bytes; does nothing when already disconnected
    /// or closed.
    pub fn transition_to_disconnected(&mut self, reconnect_buffer_size: usize)
        requires
            old(self).wf(),
        ensures
            final(self).wf(),
            final(self)@ == spec_disconnect(old(self)@, reconnect_buffer_size as nat),
    {
        match self {
            Writer::Disconnected(_) | Writer::Closed => {},
            _ => {
                *self = Writer::Disconnected(DisconnectWriter::new(reconnect_buffer_size));
            },
        }
    }

    /// Whether a flusher has nothing to do: a live writer holds no bytes, or
    /// the writer is disconnected. A closed writer wakes the flusher so it can
    /// stop.
    pub fn flusher_should_wait(&self) -> (r: bool)
        ensures
            r == match self@ {
                WriterView::Live { pending, .. } => pending.len() == 0,
                WriterView::Disconnected { .. } => true,
                WriterView::Closed => false,
            },
    {
        match self {
            Writer::Tcp(b) => b.len() == 0,
            Writer::Tls(b) => b.len() == 0,
            Writer::Disconnected(_) => true,
            Writer::Closed => false,
        }
    }

    pub fn is_disconnected(&self) -> (r: bool)
        ensures
            r == self@ is Disconnected,
    {
        if let Writer::Disconnected(_) = self {
            true
        } else {
            false
        }
    }

    pub fn is_closed(&self) -> (r: bool)
        ensures
            r == self@ is Closed,
    {
        if let Writer::Closed = self {
            true
        } else {
            false
        }
    }
}


/// The bytes of `writes`, one after the other.
pub open spec fn concat(writes: Seq<Seq<u8>>) -> Seq<u8>
    decreases writes.len(),
{
    if writes.len() == 0 {
        Seq::empty()
    } else {
        concat(writes.drop_last()) + writes.last()
    }
}

/// The state after issuing `writes` in order, starting from `w`.
pub open spec fn apply_writes(w: WriterView, writes: Seq<Seq<u8>>) -> WriterView
    decreases writes.len(),
{
    if writes.len() == 0 {
        w
    } else {
        spec_write(apply_writes(w, writes.drop_last()), writes.last()).0
    }
}

/// Writes issued while disconnected, that fit in the spill buffer together,
/// are all accepted and kept in order; installing the writer of a new
/// connection hands exactly those bytes to its socket first, and a later write
/// reaches the socket only with a later flush.
pub proof fn lemma_spill_replayed_in_order(
    capacity: nat,
    writes: Seq<Seq<u8>>,
    tls: bool,
    later: Seq<u8>,
)
    requires
        concat(writes).len() <= capacity,
    ensures
        forall|k: int|
            0 <= k < writes.len() ==> (#[trigger] spec_write(
                apply_writes(
                    WriterView::Disconnected { spilled: Seq::empty(), capacity },
                    writes.take(k),
                ),
                writes[k],
            )).1 is None,
        apply_writes(WriterView::Disconnected { spilled: Seq::empty(), capacity }, writes)
            == (WriterView::Disconnected { spilled: concat(writes), capacity }),
        spec_replace(
            WriterView::Disconnected { spilled: concat(writes), capacity },
            WriterView::Live { tls, pending: Seq::empty() },
        ) == (WriterView::Live { tls, pending: Seq::empty() }, Ok::<Seq<u8>, WriteError>(
            concat(writes),
        )),
        spec_flush(spec_write(WriterView::Live { tls, pending: Seq::empty() }, later).0) == (
            WriterView::Live { tls, pending: Seq::empty() },
            Ok::<Seq<u8>, WriteError>(later),
        ),
    decreases writes.len(),
{
    let w0 = WriterView::Disconnected { spilled: Seq::empty(), capacity };
    if writes.len() > 0 {
        let prefix = writes.drop_last();
        lemma_spill_replayed_in_order(capacity, prefix, tls, later);
        assert forall|k: int| 0 <= k < writes.len() implies (#[trigger] spec_write(
            apply_writes(w0, writes.take(k)),
            writes[k],
        )).1 is None by {
            if k < prefix.len() {
                assert(writes.take(k) =~= prefix.take(k));
                assert(writes[k] == prefix[k]);
            } else {
                assert(writes.take(k) =~= prefix);
            }
        }
    }
    assert(Seq::<u8>::empty() + later =~= later);
    assert(Seq::<u8>::empty() + concat(writes) =~= concat(writes));
}

/// A write that does not fit in what is left of the spill buffer is refused
/// and the bytes already spilled are kept as they were.
pub proof fn lemma_overflow_keeps_spill(spilled: Seq<u8>, capacity: nat, data: Seq<u8>)
    requires
        spilled.len() + data.len() > capacity,
    ensures
        spec_write(WriterView::Disconnected { spilled, capacity }, data) == (
            WriterView::Disconnected { spilled, capacity },
            Some(WriteError::BufferFull),
        ),
{
}

/// Closing leaves the writer closed from any state, and closing again does
/// nothing more; no operation leads out of the closed state.
pub proof fn lemma_close_idempotent(w: WriterView, data: Seq<u8>, size: nat, new: WriterView)
    ensures
        spec_close(w).0 == WriterView::Closed,
        spec_close(spec_close(w).0) == (WriterView::Closed, Seq::<u8>::empty()),
        spec_write(WriterView::Closed, data) == (WriterView::Closed, Some(WriteError::Closed)),
        spec_flush(WriterView::Closed) == (WriterView::Closed, Err::<Seq<u8>, WriteError>(
            WriteError::Closed,
        )),
        spec_disconnect(WriterView::Closed, size) == WriterView::Closed,
        spec_replace(WriterView::Closed, new).0 == WriterView::Closed,
{
}

} // verus!
