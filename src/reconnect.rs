use vstd::prelude::*;
use crate::outbound::Outbound;
use crate::subs::{sub_lines, Subscriptions};
use crate::writer::{bytes_result, spec_replace, spec_write, WriteError, Writer, WriterView};

verus! {

/// Effect of taking up a new connection with live writer `new` and
/// registering the subscriptions whose `SUB` lines are `lines`: the new
/// state, and the bytes that must reach the new socket at once.
pub open spec fn spec_establish(w: WriterView, new: WriterView, lines: Seq<u8>) -> (WriterView, Result<Seq<u8>, WriteError>) {
    let (w1, r) = spec_replace(w, new);
    match r {
        Err(e) => (w1, Err(e)),
        Ok(bytes) => (spec_write(w1, lines).0, Ok(bytes)),
    }
}

/// Takes up a new connection: installs its live writer, which first carries
/// what was spilled while disconnected, then queues a `SUB` line for every
/// registered subscription, ahead of anything the application sends next.
/// A closed session refuses and stays closed.
pub fn establish_session(outbound: &mut Outbound, subs: &Subscriptions, new_writer: Writer) -> (r:
    Result<Vec<u8>, WriteError>)
    requires
        old(outbound).wf(),
        new_writer.wf(),
        new_writer.is_live(),
    ensures
        final(outbound).wf(),
        final(outbound).buffer_size() == old(outbound).buffer_size(),
        final(outbound).state() == spec_establish(
            old(outbound).state(),
            new_writer@,
            sub_lines(subs@),
        ).0,
        bytes_result(r) == spec_establish(old(outbound).state(), new_writer@, sub_lines(subs@)).1,
{
    let r = outbound.replace_writer(new_writer);
    if r.is_ok() {
        let _ = outbound.resend_subs(subs);
    }
    r
}

/// Once a new connection is taken up, the next bytes due on its socket are
/// one `SUB` line per subscription, in table order, and only then what the
/// application sends.
pub proof fn lemma_resubscribe_before_sends(
    w: WriterView,
    tls: bool,
    subs: Seq<(usize, crate::subs::SubscriptionState)>,
    send: Seq<u8>,
)
    requires
        !(w is Closed),
    ensures
        spec_establish(w, WriterView::Live { tls, pending: Seq::empty() }, sub_lines(subs)).0
            == (WriterView::Live { tls, pending: sub_lines(subs) }),
        spec_write(
            spec_establish(w, WriterView::Live { tls, pending: Seq::empty() }, sub_lines(subs)).0,
            send,
        ).0 == (WriterView::Live { tls, pending: sub_lines(subs) + send }),
{
    assert(Seq::<u8>::empty() + sub_lines(subs) =~= sub_lines(subs));
}

} // verus!
