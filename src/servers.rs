use vstd::prelude::*;
use rand::seq::SliceRandom;

verus! {

/// One broker endpoint and the failed dials since the last session was
/// established.
#[derive(Debug, Clone)]
pub struct Server {
    pub host: String,
    pub port: u16,
    pub tls_required: bool,
    pub auth: Option<String>,
    pub reconnects: u32,
}

/// Whether an endpoint with `reconnects` failed dials may be tried again.
pub open spec fn eligible(reconnects: u32, max_reconnects: Option<u32>) -> bool {
    match max_reconnects {
        Some(max) => reconnects < max,
        None => true,
    }
}

/// Indices below `n` of the endpoints that may be tried, in order.
pub open spec fn eligible_upto(counts: Seq<u32>, max_reconnects: Option<u32>, n: nat) -> Seq<usize>
    decreases n,
{
    if n == 0 {
        Seq::empty()
    } else {
        let prev = eligible_upto(counts, max_reconnects, (n - 1) as nat);
        if eligible(counts[n - 1], max_reconnects) {
            prev.push((n - 1) as usize)
        } else {
            prev
        }
    }
}

/// Indices of all endpoints that may be tried, in order.
pub open spec fn eligible_indices(counts: Seq<u32>, max_reconnects: Option<u32>) -> Seq<usize> {
    eligible_upto(counts, max_reconnects, counts.len())
}

pub open spec fn counts_of(servers: Seq<Server>) -> Seq<u32> {
    servers.map_values(|s: Server| s.reconnects)
}

proof fn lemma_eligible_upto_members(counts: Seq<u32>, max_reconnects: Option<u32>, n: nat)
    requires
        n <= counts.len(),
        counts.len() <= usize::MAX,
    ensures
        forall|i: usize|
            eligible_upto(counts, max_reconnects, n).contains(i) <==> (i < n && eligible(
                counts[i as int],
                max_reconnects,
            )),
        eligible_upto(counts, max_reconnects, n).len() <= n,
    decreases n,
{
    if n > 0 {
        lemma_eligible_upto_members(counts, max_reconnects, (n - 1) as nat);
        let prev = eligible_upto(counts, max_reconnects, (n - 1) as nat);
        assert forall|i: usize|
            eligible_upto(counts, max_reconnects, n).contains(i) <==> (i < n && eligible(
                counts[i as int],
                max_reconnects,
            )) by {
            if eligible(counts[n - 1], max_reconnects) {
                assert(prev.push((n - 1) as usize)[prev.len() as int] == (n - 1) as usize);
                let pushed = prev.push((n - 1) as usize);
                if pushed.contains(i) && i != (n - 1) as usize {
                    let k = choose|k: int| 0 <= k < pushed.len() && #[trigger] pushed[k] == i;
                    assert(prev[k] == i);
                }
                if prev.contains(i) {
                    let k = choose|k: int| 0 <= k < prev.len() && #[trigger] prev[k] == i;
                    assert(prev.push((n - 1) as usize)[k] == i);
                }
            }
        }
    }
}

proof fn lemma_eligible_upto_distinct(counts: Seq<u32>, max_reconnects: Option<u32>, n: nat)
    requires
        n <= counts.len(),
        counts.len() <= usize::MAX,
    ensures
        eligible_upto(counts, max_reconnects, n).no_duplicates(),
        forall|k: int|
            0 <= k < eligible_upto(counts, max_reconnects, n).len() ==> (#[trigger] eligible_upto(
                counts,
                max_reconnects,
                n,
            )[k]) < n,
    decreases n,
{
    if n > 0 {
        lemma_eligible_upto_distinct(counts, max_reconnects, (n - 1) as nat);
    }
}

/// A reordering of the eligible indices holds each of them exactly once.
proof fn lemma_reordering_distinct(order: Seq<usize>, counts: Seq<u32>, max_reconnects: Option<u32>)
    requires
        counts.len() <= usize::MAX,
        order.to_multiset() == eligible_indices(counts, max_reconnects).to_multiset(),
    ensures
        order.no_duplicates(),
        forall|i: usize|
            order.contains(i) <==> (i < counts.len() && eligible(counts[i as int], max_reconnects)),
{
    let e = eligible_indices(counts, max_reconnects);
    lemma_eligible_upto_distinct(counts, max_reconnects, counts.len());
    lemma_eligible_upto_members(counts, max_reconnects, counts.len());
    e.lemma_multiset_has_no_duplicates();
    broadcast use vstd::seq_lib::group_to_multiset_ensures;
    assert forall|x: usize| order.to_multiset().contains(x) implies order.to_multiset().count(x)
        == 1 by {
        assert(e.to_multiset().contains(x));
    }
    order.lemma_multiset_has_no_duplicates_conv();
    assert forall|i: usize| order.contains(i) <==> e.contains(i) by {
        assert(order.to_multiset().count(i) == e.to_multiset().count(i));
    }
}

/// With retries bounded by `max`, no endpoint is left to dial exactly when
/// every endpoint has failed `max` times or more; so each endpoint is
/// dialled at most `max` times before the session gives up.
pub proof fn lemma_bounded_retries_exhaust(counts: Seq<u32>, max: u32)
    requires
        counts.len() <= usize::MAX,
    ensures
        eligible_indices(counts, Some(max)).len() == 0 <==> forall|i: int|
            0 <= i < counts.len() ==> counts[i] >= max,
        forall|c: u32| c < max ==> #[trigger] vstd::wrapping::u32_specs::wrapping_add(c, 1) == c + 1,
{
    lemma_eligible_upto_members(counts, Some(max), counts.len());
    let e = eligible_indices(counts, Some(max));
    if e.len() == 0 {
        assert forall|i: int| 0 <= i < counts.len() implies counts[i] >= max by {
            if counts[i] < max {
                assert(e.contains(i as usize));
            }
        }
    } else {
        assert(e.contains(e[0]));
    }
}

/// The failed-dial counts after the failed dials `dials`, in order,
/// starting from `counts`.
pub open spec fn counts_after(counts: Seq<u32>, dials: Seq<usize>) -> Seq<u32>
    decreases dials.len(),
{
    if dials.len() == 0 {
        counts
    } else {
        let c = counts_after(counts, dials.drop_last());
        let i = dials.last();
        if i < c.len() {
            c.update(i as int, vstd::wrapping::u32_specs::wrapping_add(c[i as int], 1))
        } else {
            c
        }
    }
}

/// Each dial of `dials` went to an endpoint whose count was then under `max`.
pub open spec fn dials_allowed(counts: Seq<u32>, dials: Seq<usize>, max: u32) -> bool {
    forall|k: int|
        0 <= k < dials.len() ==> #[trigger] dials[k] < counts.len() && counts_after(
            counts,
            dials.take(k),
        )[dials[k] as int] < max
}

/// How many times `i` occurs in `dials`.
pub open spec fn times_dialled(dials: Seq<usize>, i: usize) -> nat
    decreases dials.len(),
{
    if dials.len() == 0 {
        0
    } else {
        times_dialled(dials.drop_last(), i) + if dials.last() == i {
            1nat
        } else {
            0nat
        }
    }
}

/// With retries bounded by `max`, when every dial goes to an endpoint under
/// the bound and fails, each failure raises that endpoint's count by exactly
/// one, and an endpoint that started with `counts[i]` failures is dialled at
/// most `max - counts[i]` times (never, if it was already at the bound).
pub proof fn lemma_dials_per_endpoint(counts: Seq<u32>, dials: Seq<usize>, max: u32, i: usize)
    requires
        dials_allowed(counts, dials, max),
        i < counts.len(),
    ensures
        counts_after(counts, dials).len() == counts.len(),
        counts_after(counts, dials)[i as int] == counts[i as int] + times_dialled(dials, i),
        counts[i as int] >= max ==> times_dialled(dials, i) == 0,
        counts[i as int] < max ==> counts[i as int] + times_dialled(dials, i) <= max,
    decreases dials.len(),
{
    if dials.len() > 0 {
        let prefix = dials.drop_last();
        assert forall|k: int| 0 <= k < prefix.len() implies #[trigger] prefix[k] < counts.len()
            && counts_after(counts, prefix.take(k))[prefix[k] as int] < max by {
            assert(prefix.take(k) =~= dials.take(k));
            assert(prefix[k] == dials[k]);
        }
        lemma_dials_per_endpoint(counts, prefix, max, i);
        let last = (dials.len() - 1) as int;
        assert(dials.take(last) =~= prefix);
        assert(dials[last] < counts.len());
        if dials.last() != i {
            lemma_dials_per_endpoint(counts, prefix, max, dials.last());
        }
    }
}

/// With unbounded retries every endpoint is dialled on every pass, so the
/// reconnect loop never gives up on its own.
pub proof fn lemma_unbounded_retries_try_all(counts: Seq<u32>)
    ensures
        eligible_indices(counts, None).len() == counts.len(),
    decreases counts.len(),
{
    assert forall|n: nat| n <= counts.len() implies #[trigger] eligible_upto(counts, None, n).len() == n by {
        lemma_upto_all(counts, n);
    }
}

proof fn lemma_upto_all(counts: Seq<u32>, n: nat)
    ensures
        eligible_upto(counts, None, n).len() == n,
    decreases n,
{
    if n > 0 {
        lemma_upto_all(counts, (n - 1) as nat);
    }
}

/// What one pass of the reconnect loop is to do.
#[derive(Debug)]
pub enum PassPlan {
    /// The session is shutting down: give up.
    Stop,
    /// Every endpoint has used up its retries: give up and close.
    Exhausted,
    /// Dial these endpoints (indices into the server set), in this order.
    Try(Vec<usize>),
}

/// Relies on rand's `SliceRandom::shuffle` with `thread_rng`: it only swaps
/// elements of the vector, so the result is a reordering of its argument.
#[verifier::external_body]
fn shuffled(v: Vec<usize>) -> (r: Vec<usize>)
    ensures
        r@.to_multiset() == v@.to_multiset(),
{
    let mut v = v;
    v.shuffle(&mut rand::thread_rng());
    v
}

/// What the reconnect loop is to do next.
#[derive(Debug, PartialEq, Eq, Structural)]
pub enum Step {
    /// Dial the endpoint at this index of the server set.
    Dial(usize),
    /// The session is shutting down: give up.
    Stop,
    /// Every endpoint has used up its retries: give up and close.
    Exhausted,
    /// No endpoint is known at all: ask again.
    Idle,
}

/// The endpoints still to be dialled in the current pass of the reconnect
/// loop, in their shuffled order.
#[derive(Debug)]
pub struct ReconnectPass {
    order: Vec<usize>,
    pos: usize,
}

/// The endpoints known to a session: the configured ones, then those the
/// broker advertised.
#[derive(Debug)]
pub struct ServerSet {
    servers: Vec<Server>,
    n_configured: usize,
}

impl View for ServerSet {
    type V = Seq<Server>;

    /// Configured endpoints followed by learned ones.
    closed spec fn view(&self) -> Seq<Server> {
        self.servers@
    }
}

impl ServerSet {
    pub closed spec fn n_configured(&self) -> nat {
        self.n_configured as nat
    }

    pub closed spec fn wf(&self) -> bool {
        self.n_configured <= self.servers@.len()
    }

    pub fn new(configured: Vec<Server>) -> (r: ServerSet)
        ensures
            r.wf(),
            r@ == configured@,
            r.n_configured() == configured@.len(),
    {
        let n = configured.len();
        ServerSet { servers: configured, n_configured: n }
    }

    pub fn len(&self) -> (r: usize)
        ensures
            r == self@.len(),
            self.wf() ==> self.n_configured() <= r,
    {
        self.servers.len()
    }

    /// The endpoint at index `i` of the combined list.
    pub fn server(&self, i: usize) -> (r: &Server)
        requires
            i < self@.len(),
        ensures
            *r == self@[i as int],
    {
        &self.servers[i]
    }

    /// Replaces the learned endpoints with those of the latest `INFO`.
    pub fn process_info(&mut self, learned: Vec<Server>)
        requires
            old(self).wf(),
        ensures
            final(self).wf(),
            final(self)@ == old(self)@.take(old(self).n_configured() as int) + learned@,
            final(self)@.len() == old(self).n_configured() + learned@.len(),
            final(self).n_configured() == old(self).n_configured(),
    {
        let mut learned = learned;
        self.servers.truncate(self.n_configured);
        self.servers.append(&mut learned);
    }

    /// Indices of the endpoints that may still be dialled, in list order.
    pub fn candidates(&self, max_reconnects: Option<u32>) -> (r: Vec<usize>)
        ensures
            r@ == eligible_indices(counts_of(self@), max_reconnects),
    {
        let n = self.len();
        let mut out: Vec<usize> = Vec::new();
        let mut i: usize = 0;
        while i < n
            invariant
                n == self@.len(),
                i <= n,
                out@ == eligible_upto(counts_of(self@), max_reconnects, i as nat),
            decreases n - i,
        {
            let s = self.server(i);
            let ok = match max_reconnects {
                Some(max) => s.reconnects < max,
                None => true,
            };
            if ok {
                out.push(i);
            }
            i = i + 1;
        }
        out
    }

    /// Counts one more failed dial of endpoint `i`, wrapping past the
    /// largest count rather than failing.
    pub fn record_failure(&mut self, i: usize)
        requires
            old(self).wf(),
            i < old(self)@.len(),
        ensures
            final(self).wf(),
            final(self).n_configured() == old(self).n_configured(),
            final(self)@.len() == old(self)@.len(),
            forall|j: int| 0 <= j < old(self)@.len() && j != i ==> final(self)@[j] == old(self)@[j],
            final(self)@[i as int].reconnects == vstd::wrapping::u32_specs::wrapping_add(
                old(self)@[i as int].reconnects,
                1,
            ),
            final(self)@[i as int].host == old(self)@[i as int].host,
            final(self)@[i as int].port == old(self)@[i as int].port,
            final(self)@[i as int].tls_required == old(self)@[i as int].tls_required,
            final(self)@[i as int].auth == old(self)@[i as int].auth,
    {
        let c = self.servers[i].reconnects;
        self.servers[i].reconnects = c.wrapping_add(1);
    }

    /// Sets the failed-dial count of every endpoint back to zero, as once a
    /// session is established.
    pub fn reset_reconnects(&mut self)
        requires
            old(self).wf(),
        ensures
            final(self).wf(),
            final(self).n_configured() == old(self).n_configured(),
            final(self)@.len() == old(self)@.len(),
            forall|j: int|
                0 <= j < old(self)@.len() ==> final(self)@[j] == (Server {
                    reconnects: 0,
                    ..old(self)@[j]
                }),
    {
        let mut i: usize = 0;
        while i < self.servers.len()
            invariant
                i <= self.servers@.len(),
                self.n_configured == old(self).n_configured,
                self.servers@.len() == old(self).servers@.len(),
                forall|j: int| 0 <= j < i ==> self.servers@[j] == (Server {
                    reconnects: 0,
                    ..old(self).servers@[j]
                }),
                forall|j: int| i <= j < self.servers@.len() ==> self.servers@[j] == old(self).servers@[j],
            decreases self.servers@.len() - i,
        {
            self.servers[i].reconnects = 0;
            i = i + 1;
        }
    }

    /// A session was established with a broker that advertises `learned`:
    /// the learned endpoints are replaced and every count starts again.
    pub fn connected(&mut self, learned: Vec<Server>)
        requires
            old(self).wf(),
        ensures
            final(self).wf(),
            final(self).n_configured() == old(self).n_configured(),
            final(self)@.len() == old(self).n_configured() + learned@.len(),
            forall|j: int|
                0 <= j < old(self).n_configured() ==> final(self)@[j] == (Server {
                    reconnects: 0,
                    ..old(self)@[j]
                }),
            forall|j: int|
                0 <= j < learned@.len() ==> final(self)@[old(self).n_configured() + j] == (Server {
                    reconnects: 0,
                    ..#[trigger] learned@[j]
                }),
    {
        self.process_info(learned);
        self.reset_reconnects();
    }

    /// Decides one pass of the reconnect loop: stop when shutting down; give
    /// up when retries are bounded and no endpoint has any left; otherwise
    /// dial every endpoint that may still be tried, in a fresh random order.
    pub fn plan_pass(&self, max_reconnects: Option<u32>, shutting_down: bool) -> (r: PassPlan)
        ensures
            shutting_down ==> r is Stop,
            r is Stop ==> shutting_down,
            r is Exhausted ==> max_reconnects is Some && eligible_indices(
                counts_of(self@),
                max_reconnects,
            ).len() == 0,
            !shutting_down && max_reconnects is Some && eligible_indices(
                counts_of(self@),
                max_reconnects,
            ).len() == 0 ==> r is Exhausted,
            !shutting_down && (max_reconnects is None || eligible_indices(
                counts_of(self@),
                max_reconnects,
            ).len() > 0) ==> (r matches PassPlan::Try(order) && order@.to_multiset()
                == eligible_indices(counts_of(self@), max_reconnects).to_multiset()),
            r matches PassPlan::Try(order) ==> {
                &&& order@.no_duplicates()
                &&& forall|i: usize|
                    order@.contains(i) <==> (i < self@.len() && eligible(
                        self@[i as int].reconnects,
                        max_reconnects,
                    ))
            },
    {
        if shutting_down {
            return PassPlan::Stop;
        }
        let c = self.candidates(max_reconnects);
        if c.len() == 0 && max_reconnects.is_some() {
            return PassPlan::Exhausted;
        }
        let n = self.len();
        let order = shuffled(c);
        proof {
            lemma_reordering_distinct(order@, counts_of(self@), max_reconnects);
        }
        PassPlan::Try(order)
    }
}

impl ReconnectPass {
    pub closed spec fn wf(&self) -> bool {
        self.pos <= self.order@.len() && self.order@.no_duplicates()
    }

    /// Indices not yet dialled in the current pass, in dialling order.
    pub closed spec fn remaining(&self) -> Seq<usize> {
        self.order@.skip(self.pos as int)
    }

    /// A reconnect that has made no pass yet.
    pub fn new() -> (r: ReconnectPass)
        ensures
            r.wf(),
            r.remaining() == Seq::<usize>::empty(),
    {
        let r = ReconnectPass { order: Vec::new(), pos: 0 };
        assert(r.remaining() =~= Seq::<usize>::empty());
        r
    }

    /// Decides the next move of the reconnect loop, the failed dials so far
    /// being counted in `servers`. Within a pass each endpoint is dialled at
    /// most once, and only while its count is under the bound; so each dial
    /// that fails raises one count by exactly one, and an endpoint is dialled
    /// at most `max` times in all. When a pass is over a new one is planned:
    /// shutting down stops the loop, and with a bound the loop gives up once
    /// no endpoint is under it. Without a bound it dials on until shutdown.
    pub fn next_step(&mut self, servers: &ServerSet, max_reconnects: Option<u32>, shutting_down: bool) -> (r: Step)
        requires
            old(self).wf(),
        ensures
            final(self).wf(),
            r matches Step::Dial(i) ==> {
                &&& i < servers@.len()
                &&& eligible(servers@[i as int].reconnects, max_reconnects)
                &&& !final(self).remaining().contains(i)
            },
            r is Stop ==> shutting_down,
            r is Exhausted ==> max_reconnects is Some && forall|j: int|
                0 <= j < servers@.len() ==> !eligible(servers@[j].reconnects, max_reconnects),
            r is Idle ==> !shutting_down && max_reconnects is None && servers@.len() == 0,
            !shutting_down && (exists|j: int|
                0 <= j < servers@.len() && eligible(servers@[j].reconnects, max_reconnects))
                ==> r is Dial,
            !shutting_down && max_reconnects is Some && (forall|j: int|
                0 <= j < servers@.len() ==> !eligible(servers@[j].reconnects, max_reconnects))
                ==> r is Exhausted,
    {
        let n = servers.len();
        while self.pos < self.order.len()
            invariant
                self.wf(),
                n == servers@.len(),
            decreases self.order@.len() - self.pos,
        {
            let i = self.order[self.pos];
            self.pos = self.pos + 1;
            if i < n {
                let ok = match max_reconnects {
                    Some(max) => servers.server(i).reconnects < max,
                    None => true,
                };
                if ok {
                    proof {
                        let k = self.pos - 1;
                        if self.remaining().contains(i) {
                            let m = choose|m: int| 0 <= m < self.remaining().len() && #[trigger] self.remaining()[m] == i;
                            assert(self.order@[self.pos + m] == self.order@[k]);
                        }
                    }
                    return Step::Dial(i);
                }
            }
        }
        proof {
            let e = eligible_indices(counts_of(servers@), max_reconnects);
            lemma_eligible_upto_members(counts_of(servers@), max_reconnects, servers@.len());
            if e.len() > 0 {
                assert(e.contains(e[0]));
                assert(counts_of(servers@)[e[0] as int] == servers@[e[0] as int].reconnects);
            }
            if exists|j: int|
                0 <= j < servers@.len() && eligible(servers@[j].reconnects, max_reconnects) {
                let j = choose|j: int|
                    0 <= j < servers@.len() && eligible(servers@[j].reconnects, max_reconnects);
                assert(counts_of(servers@)[j] == servers@[j].reconnects);
                assert(e.contains(j as usize));
            }
        }
        match servers.plan_pass(max_reconnects, shutting_down) {
            PassPlan::Stop => Step::Stop,
            PassPlan::Exhausted => {
                proof {
                    assert forall|j: int| 0 <= j < servers@.len() implies !eligible(
                        servers@[j].reconnects,
                        max_reconnects,
                    ) by {
                        if eligible(servers@[j].reconnects, max_reconnects) {
                            assert(counts_of(servers@)[j] == servers@[j].reconnects);
                            assert(eligible_indices(counts_of(servers@), max_reconnects).contains(j as usize));
                        }
                    }
                }
                Step::Exhausted
            },
            PassPlan::Try(order) => {
                self.order = order;
                self.pos = 0;
                if self.order.len() == 0 {
                    proof {
                        if n > 0 {
                            assert(!self.order@.contains(0usize));
                        }
                        if exists|j: int|
                            0 <= j < servers@.len() && eligible(servers@[j].reconnects, max_reconnects) {
                            let j = choose|j: int|
                                0 <= j < servers@.len() && eligible(servers@[j].reconnects, max_reconnects);
                            assert(!self.order@.contains(j as usize));
                        }
                    }
                    Step::Idle
                } else {
                    let i = self.order[0];
                    self.pos = 1;
                    proof {
                        assert(self.order@.contains(i));
                        if self.remaining().contains(i) {
                            let m = choose|m: int| 0 <= m < self.remaining().len() && #[trigger] self.remaining()[m] == i;
                            assert(self.order@[1 + m] == self.order@[0]);
                        }
                    }
                    Step::Dial(i)
                }
            },
        }
    }
}

} // verus!
