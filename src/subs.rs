use vstd::prelude::*;
use crate::protocol::{encode_sub, sub_frame};

verus! {

/// What the session must remember of one subscription to register it again
/// with a new broker.
#[derive(Debug, Clone)]
pub struct SubscriptionState {
    pub subject: Vec<u8>,
    pub queue: Option<Vec<u8>>,
}

pub open spec fn opt_vec(o: Option<Vec<u8>>) -> Option<Seq<u8>> {
    match o {
        Some(v) => Some(v@),
        None => None,
    }
}

/// The `SUB` line of subscription `sid`.
pub open spec fn sub_line(sid: usize, s: SubscriptionState) -> Seq<u8> {
    sub_frame(s.subject@, opt_vec(s.queue), sid as nat)
}

/// The `SUB` lines of `entries`, in order.
pub open spec fn sub_lines(entries: Seq<(usize, SubscriptionState)>) -> Seq<u8>
    decreases entries.len(),
{
    if entries.len() == 0 {
        Seq::empty()
    } else {
        sub_lines(entries.drop_last()) + sub_line(entries.last().0, entries.last().1)
    }
}

/// The subscription table, keyed by sid, in order of registration.
#[derive(Debug)]
pub struct Subscriptions {
    entries: Vec<(usize, SubscriptionState)>,
}

impl View for Subscriptions {
    type V = Seq<(usize, SubscriptionState)>;

    closed spec fn view(&self) -> Seq<(usize, SubscriptionState)> {
        self.entries@
    }
}

/// No sid occurs twice.
pub open spec fn unique_sids(entries: Seq<(usize, SubscriptionState)>) -> bool {
    forall|i: int, j: int|
        0 <= i < entries.len() && 0 <= j < entries.len() && i != j ==> entries[i].0
            != entries[j].0
}

pub open spec fn has_sid(entries: Seq<(usize, SubscriptionState)>, sid: usize) -> bool {
    exists|i: int| 0 <= i < entries.len() && entries[i].0 == sid
}

impl Subscriptions {
    pub open spec fn wf(&self) -> bool {
        unique_sids(self@)
    }

    pub fn new() -> (r: Subscriptions)
        ensures
            r.wf(),
            r@ == Seq::<(usize, SubscriptionState)>::empty(),
    {
        Subscriptions { entries: Vec::new() }
    }

    /// Position of `sid` in the table.
    pub fn position(&self, sid: usize) -> (r: Option<usize>)
        requires
            self.wf(),
        ensures
            r is None <==> !has_sid(self@, sid),
            r matches Some(i) ==> i < self@.len() && self@[i as int].0 == sid,
    {
        let mut i: usize = 0;
        while i < self.entries.len()
            invariant
                i <= self@.len(),
                self@ == self.entries@,
                forall|k: int| 0 <= k < i ==> self@[k].0 != sid,
            decreases self@.len() - i,
        {
            if self.entries[i].0 == sid {
                return Some(i);
            }
            i = i + 1;
        }
        None
    }

    /// Whether a subscription is registered under `sid`.
    pub fn contains(&self, sid: usize) -> (r: bool)
        requires
            self.wf(),
        ensures
            r == has_sid(self@, sid),
    {
        self.position(sid).is_some()
    }

    /// Registers `state` under `sid`, replacing any earlier entry of that sid
    /// in place.
    pub fn insert(&mut self, sid: usize, state: SubscriptionState)
        requires
            old(self).wf(),
        ensures
            final(self).wf(),
            has_sid(old(self)@, sid) ==> exists|i: int|
                0 <= i < old(self)@.len() && old(self)@[i].0 == sid && final(self)@ == old(
                    self,
                )@.update(i, (sid, state)),
            !has_sid(old(self)@, sid) ==> final(self)@ == old(self)@.push((sid, state)),
    {
        match self.position(sid) {
            Some(i) => {
                self.entries.set(i, (sid, state));
            },
            None => {
                self.entries.push((sid, state));
            },
        }
    }

    /// Removes the entry of `sid`; says whether there was one.
    pub fn remove(&mut self, sid: usize) -> (r: bool)
        requires
            old(self).wf(),
        ensures
            final(self).wf(),
            r == has_sid(old(self)@, sid),
            r ==> exists|i: int|
                0 <= i < old(self)@.len() && old(self)@[i].0 == sid && final(self)@ == old(
                    self,
                )@.remove(i),
            !r ==> final(self)@ == old(self)@,
    {
        match self.position(sid) {
            Some(i) => {
                self.entries.remove(i);
                true
            },
            None => false,
        }
    }

    /// One `SUB` line per entry, in table order.
    pub fn encode_all(&self) -> (r: Vec<u8>)
        ensures
            r@ == sub_lines(self@),
    {
        let mut out: Vec<u8> = Vec::new();
        let mut i: usize = 0;
        while i < self.entries.len()
            invariant
                i <= self@.len(),
                self@ == self.entries@,
                out@ == sub_lines(self@.subrange(0, i as int)),
            decreases self@.len() - i,
        {
            let entry = &self.entries[i];
            let queue: Option<&[u8]> = match &entry.1.queue {
                Some(q) => Some(q.as_slice()),
                None => None,
            };
            let line = encode_sub(entry.1.subject.as_slice(), queue, entry.0);
            let mut line = line;
            out.append(&mut line);
            assert(self@.subrange(0, i + 1).drop_last() =~= self@.subrange(0, i as int));
            i = i + 1;
        }
        assert(self@.subrange(0, self@.len() as int) =~= self@);
        out
    }
}

} // verus!
