use vstd::prelude::*;
use crate::outbound::{spec_write_flush, Outbound};
use crate::protocol::ping_frame;
use crate::writer::{bytes_result, spec_disconnect, WriteError, WriterView};

verus! {

/// Flushes waiting for their `PONG`, oldest first. Each is named by a ticket
/// that the caller maps to its one-shot signal.
#[derive(Debug)]
pub struct PongQueue {
    waiting: Vec<u64>,
}

/// Effect of a `PONG` from the broker: the oldest waiting flush, if any,
/// leaves the queue and is signalled `true`.
pub open spec fn spec_pong(q: Seq<u64>) -> (Seq<u64>, Option<u64>) {
    if q.len() == 0 {
        (q, None)
    } else {
        (q.drop_first(), Some(q.first()))
    }
}

impl View for PongQueue {
    type V = Seq<u64>;

    closed spec fn view(&self) -> Seq<u64> {
        self.waiting@
    }
}

impl PongQueue {
    pub fn new() -> (r: PongQueue)
        ensures
            r@ == Seq::<u64>::empty(),
    {
        PongQueue { waiting: Vec::new() }
    }

    pub fn len(&self) -> (r: usize)
        ensures
            r == self@.len(),
    {
        self.waiting.len()
    }

    /// Starts a flush: sends `PING` and, when that is accepted, queues
    /// `ticket` to wait for the answer. Without a connection the `PING` is
    /// refused and nothing is queued, so no flush waits while disconnected.
    pub fn begin_flush(&mut self, outbound: &mut Outbound, ticket: u64) -> (r: Result<
        Vec<u8>,
        WriteError,
    >)
        requires
            old(outbound).wf(),
        ensures
            final(outbound).wf(),
            final(outbound).buffer_size() == old(outbound).buffer_size(),
            old(outbound).state() is Disconnected ==> {
                &&& r == Err::<Vec<u8>, WriteError>(WriteError::NotConnected)
                &&& final(outbound).state() == old(outbound).state()
            },
            !(old(outbound).state() is Disconnected) ==> {
                &&& final(outbound).state() == spec_write_flush(
                    old(outbound).state(),
                    ping_frame(),
                ).0
                &&& bytes_result(r) == spec_write_flush(old(outbound).state(), ping_frame()).1
            },
            r is Ok ==> final(self)@ == old(self)@.push(ticket),
            r is Err ==> final(self)@ == old(self)@,
    {
        let r = outbound.send_ping();
        if r.is_ok() {
            self.waiting.push(ticket);
        }
        r
    }

    /// A `PONG` arrived: the oldest waiting flush succeeded. A `PONG` with
    /// nobody waiting is ignored.
    pub fn process_pong(&mut self) -> (r: Option<u64>)
        ensures
            (final(self)@, r) == spec_pong(old(self)@),
    {
        if self.waiting.len() == 0 {
            None
        } else {
            let t = self.waiting.remove(0);
            assert(self.waiting@ =~= old(self)@.drop_first());
            Some(t)
        }
    }

    /// Empties the queue; returns every waiting ticket, oldest first. Each is
    /// to be signalled `false`.
    pub fn drain(&mut self) -> (r: Vec<u64>)
        ensures
            r@ == old(self)@,
            final(self)@ == Seq::<u64>::empty(),
    {
        let mut out: Vec<u64> = Vec::new();
        core::mem::swap(&mut self.waiting, &mut out);
        out
    }
}

/// First step of a reconnect: the session enters the disconnected state and
/// every flush waiting for a `PONG` is aborted. Taken under the queue's lock,
/// so a concurrent flush is either drained here or sees the disconnected
/// state and is refused.
pub fn disconnect_and_drain(outbound: &mut Outbound, pongs: &mut PongQueue) -> (r: Vec<u64>)
    requires
        old(outbound).wf(),
    ensures
        final(outbound).wf(),
        final(outbound).buffer_size() == old(outbound).buffer_size(),
        final(outbound).state() == spec_disconnect(
            old(outbound).state(),
            old(outbound).buffer_size(),
        ),
        r@ == old(pongs)@,
        final(pongs)@ == Seq::<u64>::empty(),
{
    outbound.transition_to_disconnected();
    pongs.drain()
}

/// Applies `k` `PONG`s to the queue `q`.
pub open spec fn after_pongs(q: Seq<u64>, k: nat) -> Seq<u64>
    decreases k,
{
    if k == 0 {
        q
    } else {
        spec_pong(after_pongs(q, (k - 1) as nat)).0
    }
}

/// Tickets signalled `true` by `k` `PONG`s applied to the queue `q`, in order.
pub open spec fn answered(q: Seq<u64>, k: nat) -> Seq<u64>
    decreases k,
{
    if k == 0 {
        Seq::empty()
    } else {
        let prev = answered(q, (k - 1) as nat);
        match spec_pong(after_pongs(q, (k - 1) as nat)).1 {
            Some(t) => prev.push(t),
            None => prev,
        }
    }
}

/// After `k` answered flushes and a disconnect, the flushes signalled `true`
/// and those drained with `false` are the waiting ones, each exactly once and
/// in order, and the emptied queue gives nothing to a later `PONG`.
pub proof fn lemma_each_flush_signalled_once(q: Seq<u64>, k: nat)
    requires
        k <= q.len(),
    ensures
        after_pongs(q, k) == q.skip(k as int),
        answered(q, k) == q.take(k as int),
        answered(q, k) + after_pongs(q, k) == q,
        spec_pong(Seq::<u64>::empty()).1 is None,
    decreases k,
{
    if k > 0 {
        lemma_each_flush_signalled_once(q, (k - 1) as nat);
        assert(q.skip((k - 1) as int).drop_first() =~= q.skip(k as int));
        assert(q.take((k - 1) as int).push(q[k - 1]) =~= q.take(k as int));
    }
    assert(q.take(k as int) + q.skip(k as int) =~= q);
}

} // verus!
