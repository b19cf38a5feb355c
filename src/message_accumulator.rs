//! Quorum accumulation: a group-sourced message is delivered once enough
//! distinct group members have vouched for the same copy of it.

use vstd::prelude::*;
use crate::id::PublicId;
use crate::messages::{RoutingMessage, RoutingMessageView};
use crate::signed_message_filter::{is_live, live};

verus! {

/// How long a partially agreed message is remembered, in seconds.
pub const ACCUMULATOR_EXPIRY_DURATION_SECS: u64 = 1200;

struct AccEntry {
    msg: RoutingMessage,
    signers: Vec<PublicId>,
    delivered: bool,
    stamp: u64,
}

spec fn acc_match(e: AccEntry, m: RoutingMessageView, now: u64, expiry: u64) -> bool {
    e.msg@ == m && live(e.stamp, now, expiry)
}

spec fn acc_unique(s: Seq<AccEntry>) -> bool {
    &&& forall|i: int, j: int| 0 <= i < s.len() && 0 <= j < s.len() && i != j ==> s[i].msg@ != s[j].msg@
    &&& forall|i: int| 0 <= i < s.len() ==> (#[trigger] s[i]).signers@.no_duplicates()
}

spec fn acc_known(s: Seq<AccEntry>, m: RoutingMessageView, now: u64, expiry: u64) -> bool {
    exists|i: int| 0 <= i < s.len() && #[trigger] acc_match(s[i], m, now, expiry)
}

spec fn acc_index(s: Seq<AccEntry>, m: RoutingMessageView, now: u64, expiry: u64) -> int {
    choose|i: int| 0 <= i < s.len() && #[trigger] acc_match(s[i], m, now, expiry)
}

spec fn signers_in(s: Seq<AccEntry>, m: RoutingMessageView, now: u64, expiry: u64) -> Set<PublicId> {
    if acc_known(s, m, now, expiry) {
        s[acc_index(s, m, now, expiry)].signers@.to_set()
    } else {
        Set::empty()
    }
}

spec fn delivered_in(s: Seq<AccEntry>, m: RoutingMessageView, now: u64, expiry: u64) -> bool {
    acc_known(s, m, now, expiry) && s[acc_index(s, m, now, expiry)].delivered
}

proof fn lemma_acc_at(s: Seq<AccEntry>, m: RoutingMessageView, now: u64, expiry: u64, k: int)
    requires
        acc_unique(s),
        0 <= k < s.len(),
        acc_match(s[k], m, now, expiry),
    ensures
        signers_in(s, m, now, expiry) == s[k].signers@.to_set(),
        delivered_in(s, m, now, expiry) == s[k].delivered,
{
    let j = acc_index(s, m, now, expiry);
    assert(acc_match(s[j], m, now, expiry));
}

proof fn lemma_signers_finite(s: Seq<AccEntry>, m: RoutingMessageView, now: u64, expiry: u64)
    ensures
        signers_in(s, m, now, expiry).finite(),
{
    if acc_known(s, m, now, expiry) {
        vstd::seq_lib::seq_to_set_is_finite(s[acc_index(s, m, now, expiry)].signers@);
    }
}

fn copy_ids(v: &Vec<PublicId>) -> (r: Vec<PublicId>)
    ensures
        r@ == v@,
{
    let mut r: Vec<PublicId> = Vec::new();
    let mut i: usize = 0;
    while i < v.len()
        invariant
            i <= v.len(),
            r@ == v@.subrange(0, i as int),
        decreases v.len() - i,
    {
        r.push(v[i]);
        i = i + 1;
        assert(r@ =~= v@.subrange(0, i as int));
    }
    assert(r@ =~= v@);
    r
}

impl AccEntry {
    fn duplicate(&self) -> (r: AccEntry)
        ensures
            r.msg@ == self.msg@,
            r.signers@ == self.signers@,
            r.delivered == self.delivered,
            r.stamp == self.stamp,
    {
        AccEntry {
            msg: self.msg.clone(),
            signers: copy_ids(&self.signers),
            delivered: self.delivered,
            stamp: self.stamp,
        }
    }
}

/// Collects, per message, the distinct identities that vouched for it.
pub struct MessageAccumulator {
    entries: Vec<AccEntry>,
    quorum_size: usize,
    expiry: u64,
}

impl MessageAccumulator {
    /// The accumulator's internal invariant.
    pub closed spec fn wf(&self) -> bool {
        acc_unique(self.entries@)
    }

    pub closed spec fn spec_quorum_size(&self) -> usize {
        self.quorum_size
    }

    /// How long an entry is remembered after its last copy.
    pub closed spec fn expiry(&self) -> u64 {
        self.expiry
    }

    /// The identities that vouched for the group-sourced message `m`, as
    /// remembered at `now`.
    pub closed spec fn signers(&self, m: RoutingMessageView, now: u64) -> Set<PublicId> {
        signers_in(self.entries@, m, now, self.expiry)
    }

    /// Whether `m` has already been handed out, as remembered at `now`.
    pub closed spec fn delivered(&self, m: RoutingMessageView, now: u64) -> bool {
        delivered_in(self.entries@, m, now, self.expiry)
    }

    /// An empty accumulator needing `quorum_size` distinct signers, which
    /// remembers entries for `expiry_secs` seconds after their last copy.
    pub fn with_quorum_size(quorum_size: usize, expiry_secs: u64) -> (r: Self)
        ensures
            r.wf(),
            r.spec_quorum_size() == quorum_size,
            r.expiry() == expiry_secs,
            forall|m: RoutingMessageView, t: u64| r.signers(m, t) == Set::<PublicId>::empty() && !r.delivered(m, t),
            forall|m: RoutingMessageView, t: u64| #[trigger] r.signers(m, t).finite(),
    {
        MessageAccumulator { entries: Vec::new(), quorum_size, expiry: expiry_secs }
    }

    /// An empty accumulator that needs `quorum_size` distinct signers.
    pub fn new(quorum_size: usize) -> (r: Self)
        ensures
            r.wf(),
            r.spec_quorum_size() == quorum_size,
            r.expiry() == ACCUMULATOR_EXPIRY_DURATION_SECS,
            forall|m: RoutingMessageView, t: u64| r.signers(m, t) == Set::<PublicId>::empty() && !r.delivered(m, t),
            forall|m: RoutingMessageView, t: u64| #[trigger] r.signers(m, t).finite(),
    {
        Self::with_quorum_size(quorum_size, ACCUMULATOR_EXPIRY_DURATION_SECS)
    }

    /// The number of distinct signers a group-sourced message needs.
    pub fn quorum_size(&self) -> (r: usize)
        ensures
            r == self.spec_quorum_size(),
    {
        self.quorum_size
    }

    /// Changes the number of distinct signers needed.
    pub fn set_quorum_size(&mut self, quorum_size: usize)
        requires
            old(self).wf(),
        ensures
            final(self).wf(),
            final(self).spec_quorum_size() == quorum_size,
            final(self).expiry() == old(self).expiry(),
            forall|m: RoutingMessageView, t: u64|
                final(self).signers(m, t) == old(self).signers(m, t) && final(self).delivered(m, t) == old(
                    self,
                ).delivered(m, t),
    {
        self.quorum_size = quorum_size;
    }
}

/// Whether adding `signer` to the vouching set `signers` of a message that was
/// `delivered` or not, with quorum `q`, hands the message out now.
pub open spec fn delivers_now(signers: Set<PublicId>, delivered: bool, signer: PublicId, q: nat) -> bool {
    !delivered && signers.insert(signer).len() >= q
}

fn contains_id(v: &Vec<PublicId>, id: &PublicId) -> (r: bool)
    ensures
        r == v@.contains(*id),
{
    let mut i: usize = 0;
    while i < v.len()
        invariant
            i <= v.len(),
            forall|j: int| 0 <= j < i ==> v@[j] != *id,
        decreases v.len() - i,
    {
        if v[i] == *id {
            return true;
        }
        i = i + 1;
    }
    false
}

impl MessageAccumulator {
    /// How adding a copy of `msg` vouched for by `signer` at `now` changes
    /// the accumulator, `prev` being it before: nothing for a message from a
    /// single peer; for a group-sourced message the signer joins its set, its
    /// delivery flag records whether the quorum was reached, its stamp is
    /// refreshed, and other messages are unchanged from `now` on.
    pub open spec fn added(&self, prev: &MessageAccumulator, msg: RoutingMessageView, signer: PublicId, now: u64) -> bool {
        &&& self.wf()
        &&& forall|m: RoutingMessageView, t: u64| #[trigger] self.signers(m, t).finite()
        &&& self.spec_quorum_size() == prev.spec_quorum_size()
        &&& self.expiry() == prev.expiry()
        &&& !msg.src.spec_is_group() ==> *self == *prev
        &&& msg.src.spec_is_group() ==> {
            &&& forall|t: u64|
                self.signers(msg, t) == if live(now, t, prev.expiry()) {
                    prev.signers(msg, now).insert(signer)
                } else {
                    Set::<PublicId>::empty()
                }
            &&& forall|t: u64|
                self.delivered(msg, t) == (live(now, t, prev.expiry()) && (prev.delivered(msg, now) || prev.signers(
                    msg,
                    now,
                ).insert(signer).len() >= prev.spec_quorum_size()))
            &&& forall|m: RoutingMessageView, t: u64|
                m != msg && t >= now ==> self.signers(m, t) == prev.signers(m, t) && self.delivered(m, t)
                    == prev.delivered(m, t)
        }
    }

    /// Whether adding a copy of `msg` vouched for by `signer` at `now` hands
    /// the message out, `prev` being the accumulator before.
    pub open spec fn hands_out(prev: &MessageAccumulator, msg: RoutingMessageView, signer: PublicId, now: u64) -> bool {
        !msg.src.spec_is_group() || delivers_now(
            prev.signers(msg, now),
            prev.delivered(msg, now),
            signer,
            prev.spec_quorum_size() as nat,
        )
    }

    /// Adds a copy of `msg` vouched for by `signer` at time `now`.
    ///
    /// A message from a single peer is handed back at once and nothing is
    /// recorded. For a group-sourced message, `signer` joins the set of
    /// identities that vouched for it (adding one twice changes nothing), and
    /// the message is handed back exactly when it was not handed out before
    /// and the set has reached the quorum. The entry's stamp is refreshed;
    /// entries expired at `now` are evicted.
    pub fn add(&mut self, msg: &RoutingMessage, signer: &PublicId, now: u64) -> (r: Option<RoutingMessage>)
        requires
            old(self).wf(),
        ensures
            final(self).wf(),
            final(self).spec_quorum_size() == old(self).spec_quorum_size(),
            final(self).expiry() == old(self).expiry(),
            r is Some ==> r->0@ == msg@,
            !msg.src.spec_is_group() ==> r is Some && *final(self) == *old(self),
            final(self).added(old(self), msg@, *signer, now),
            r is Some == MessageAccumulator::hands_out(old(self), msg@, *signer, now),
            forall|m: RoutingMessageView, t: u64| #[trigger] final(self).signers(m, t).finite(),
            msg.src.spec_is_group() ==> {
                &&& r is Some == delivers_now(
                    old(self).signers(msg@, now),
                    old(self).delivered(msg@, now),
                    *signer,
                    old(self).spec_quorum_size() as nat,
                )
                &&& forall|t: u64|
                    final(self).signers(msg@, t) == if live(now, t, old(self).expiry()) {
                        old(self).signers(msg@, now).insert(*signer)
                    } else {
                        Set::<PublicId>::empty()
                    }
                &&& forall|t: u64|
                    final(self).delivered(msg@, t) == (live(now, t, old(self).expiry()) && (old(self).delivered(
                        msg@,
                        now,
                    ) || old(self).signers(msg@, now).insert(*signer).len() >= old(self).spec_quorum_size()))
                &&& forall|m: RoutingMessageView, t: u64|
                    m != msg@ && t >= now ==> final(self).signers(m, t) == old(self).signers(m, t)
                        && final(self).delivered(m, t) == old(self).delivered(m, t)
            },
    {
        if !msg.src.is_group() {
            assert forall|m: RoutingMessageView, t: u64| #[trigger] self.signers(m, t).finite() by {
                lemma_signers_finite(self.entries@, m, t, self.expiry);
            }
            return Some(msg.clone());
        }
        let expiry = self.expiry;
        let ghost olds = self.entries@;
        let mut kept: Vec<AccEntry> = Vec::new();
        let mut found: bool = false;
        let mut signers: Vec<PublicId> = Vec::new();
        let mut delivered: bool = false;
        let mut i: usize = 0;
        while i < self.entries.len()
            invariant
                self.entries@ == olds,
                self.expiry == expiry,
                acc_unique(olds),
                i <= olds.len(),
                acc_unique(kept@),
                forall|j: int| 0 <= j < kept@.len() ==> kept@[j].msg@ != msg@ && live(kept@[j].stamp, now, expiry),
                forall|j: int| #![trigger kept@[j]] 0 <= j < kept@.len() ==> exists|x: int|
                    0 <= x < i && olds[x].msg@ == kept@[j].msg@ && olds[x].signers@ == kept@[j].signers@
                        && olds[x].delivered == kept@[j].delivered && olds[x].stamp == kept@[j].stamp,
                forall|x: int| #![trigger olds[x]] 0 <= x < i && olds[x].msg@ != msg@ && live(olds[x].stamp, now, expiry)
                    ==> exists|j: int| 0 <= j < kept@.len() && kept@[j].msg@ == olds[x].msg@
                        && kept@[j].signers@ == olds[x].signers@ && kept@[j].delivered == olds[x].delivered
                        && kept@[j].stamp == olds[x].stamp,
                found == exists|x: int| 0 <= x < i && #[trigger] acc_match(olds[x], msg@, now, expiry),
                found ==> exists|x: int| 0 <= x < i && #[trigger] acc_match(olds[x], msg@, now, expiry)
                    && olds[x].signers@ == signers@ && olds[x].delivered == delivered,
                !found ==> signers@ == Seq::<PublicId>::empty() && !delivered,
            decreases olds.len() - i,
        {
            let e = &self.entries[i];
            if is_live(e.stamp, now, expiry) {
                if e.msg.same_as(msg) {
                    found = true;
                    signers = copy_ids(&e.signers);
                    delivered = e.delivered;
                    assert(acc_match(olds[i as int], msg@, now, expiry));
                } else {
                    let ghost before = kept@;
                    kept.push(e.duplicate());
                    assert(olds[i as int] == olds[i as int]);
                    assert forall|a: int, b: int| 0 <= a < kept@.len() && 0 <= b < kept@.len() && a != b
                        implies kept@[a].msg@ != kept@[b].msg@ by {
                        if a == before.len() as int || b == before.len() as int {
                            let c = if a == before.len() as int { b } else { a };
                            let x = choose|x: int| 0 <= x < i && olds[x].msg@ == kept@[c].msg@
                                && olds[x].signers@ == kept@[c].signers@ && olds[x].delivered == kept@[c].delivered
                                && olds[x].stamp == kept@[c].stamp;
                            assert(x != i as int);
                        }
                    }
                    assert forall|a: int| 0 <= a < kept@.len() implies (#[trigger] kept@[a]).signers@.no_duplicates() by {
                        if a < before.len() {
                            assert(kept@[a] == before[a]);
                            assert(before[a] == before[a]);
                        }
                    }
                    assert forall|x: int| #![trigger olds[x]] 0 <= x <= i && olds[x].msg@ != msg@
                        && live(olds[x].stamp, now, expiry) implies exists|j: int| 0 <= j < kept@.len()
                        && kept@[j].msg@ == olds[x].msg@ && kept@[j].signers@ == olds[x].signers@
                        && kept@[j].delivered == olds[x].delivered && kept@[j].stamp == olds[x].stamp by {
                        if x < i {
                            let j = choose|j: int| 0 <= j < before.len() && before[j].msg@ == olds[x].msg@
                                && before[j].signers@ == olds[x].signers@ && before[j].delivered == olds[x].delivered
                                && before[j].stamp == olds[x].stamp;
                            assert(kept@[j] == before[j]);
                        } else {
                            assert(kept@[before.len() as int].msg@ == olds[x].msg@);
                        }
                    }
                }
            }
            i = i + 1;
        }
        let ghost old_set = signers_in(olds, msg@, now, expiry);
        let ghost old_delivered = delivered_in(olds, msg@, now, expiry);
        if found {
            let ghost x = choose|x: int| 0 <= x < olds.len() && #[trigger] acc_match(olds[x], msg@, now, expiry)
                && olds[x].signers@ == signers@ && olds[x].delivered == delivered;
            proof {
                lemma_acc_at(olds, msg@, now, expiry, x);
                assert(olds[x] == olds[x]);
            }
        } else {
            assert(signers@.to_set() =~= Set::<PublicId>::empty());
        }
        assert(signers@.no_duplicates());
        assert(old_set == signers@.to_set() && old_delivered == delivered);
        let ghost sig_before = signers@;
        if !contains_id(&signers, signer) {
            signers.push(*signer);
            proof {
                sig_before.lemma_push_to_set_commute(*signer);
            }
            assert(signers@.no_duplicates());
        } else {
            assert(signers@.to_set() =~= sig_before.to_set().insert(*signer));
        }
        proof {
            signers@.unique_seq_to_set();
        }
        let reached = signers.len() >= self.quorum_size;
        let deliver = !delivered && reached;
        let ghost before = kept@;
        kept.push(AccEntry { msg: msg.clone(), signers, delivered: delivered || reached, stamp: now });
        let ghost news = kept@;
        let ghost last = before.len() as int;
        assert(acc_unique(news)) by {
            assert forall|a: int, b: int| 0 <= a < news.len() && 0 <= b < news.len() && a != b
                implies news[a].msg@ != news[b].msg@ by {
                if a != last && b != last {
                    assert(news[a] == before[a] && news[b] == before[b]);
                } else if a == last {
                    assert(news[b] == before[b]);
                } else {
                    assert(news[a] == before[a]);
                }
            }
            assert forall|a: int| 0 <= a < news.len() implies (#[trigger] news[a]).signers@.no_duplicates() by {
                if a != last {
                    assert(news[a] == before[a]);
                    assert(before[a] == before[a]);
                }
            }
        }
        assert forall|t: u64| #![auto] signers_in(news, msg@, t, expiry) == (if live(now, t, expiry) {
            old_set.insert(*signer)
        } else {
            Set::<PublicId>::empty()
        }) && delivered_in(news, msg@, t, expiry) == (live(now, t, expiry) && (old_delivered || reached)) by {
            if live(now, t, expiry) {
                assert(acc_match(news[last], msg@, t, expiry));
                lemma_acc_at(news, msg@, t, expiry, last);
            } else {
                assert forall|y: int| 0 <= y < news.len() implies !#[trigger] acc_match(news[y], msg@, t, expiry) by {
                    if y != last {
                        assert(news[y] == before[y]);
                    }
                }
            }
        }
        assert forall|m: RoutingMessageView, t: u64| m != msg@ && t >= now implies signers_in(news, m, t, expiry) == signers_in(
            olds,
            m,
            t,
            expiry,
        ) && delivered_in(news, m, t, expiry) == delivered_in(olds, m, t, expiry) by {
            if acc_known(olds, m, t, expiry) {
                let x = acc_index(olds, m, t, expiry);
                assert(acc_match(olds[x], m, t, expiry));
                assert(live(olds[x].stamp, now, expiry));
                assert(olds[x] == olds[x]);
                let j = choose|j: int| 0 <= j < before.len() && before[j].msg@ == olds[x].msg@
                    && before[j].signers@ == olds[x].signers@ && before[j].delivered == olds[x].delivered
                    && before[j].stamp == olds[x].stamp;
                assert(news[j] == before[j]);
                assert(acc_match(news[j], m, t, expiry));
                lemma_acc_at(news, m, t, expiry, j);
                lemma_acc_at(olds, m, t, expiry, x);
            } else {
                assert forall|y: int| 0 <= y < news.len() implies !#[trigger] acc_match(news[y], m, t, expiry) by {
                    if y != last {
                        assert(news[y] == before[y]);
                        assert(before[y] == before[y]);
                        if acc_match(news[y], m, t, expiry) {
                            let x = choose|x: int| 0 <= x < i && olds[x].msg@ == before[y].msg@
                                && olds[x].signers@ == before[y].signers@ && olds[x].delivered == before[y].delivered
                                && olds[x].stamp == before[y].stamp;
                            assert(acc_match(olds[x], m, t, expiry));
                        }
                    }
                }
            }
        }
        self.entries = kept;
        assert forall|m: RoutingMessageView, t: u64| #[trigger] self.signers(m, t).finite() by {
            lemma_signers_finite(self.entries@, m, t, self.expiry);
        }
        if deliver {
            Some(msg.clone())
        } else {
            None
        }
    }
}

/// The vouching set and delivery flag of a group-sourced message after copies
/// from `signers` were added in that order, starting from nothing, with quorum `q`.
pub open spec fn accumulated(signers: Seq<PublicId>, q: nat) -> (Set<PublicId>, bool)
    decreases signers.len(),
{
    if signers.len() == 0 {
        (Set::empty(), false)
    } else {
        let prev = accumulated(signers.drop_last(), q);
        let s = prev.0.insert(signers.last());
        (s, prev.1 || s.len() >= q)
    }
}

proof fn lemma_accumulated_distinct(signers: Seq<PublicId>, q: nat)
    requires
        signers.no_duplicates(),
        q >= 1,
    ensures
        accumulated(signers, q).0 == signers.to_set(),
        accumulated(signers, q).0.len() == signers.len(),
        accumulated(signers, q).1 == (signers.len() >= q),
    decreases signers.len(),
{
    if signers.len() == 0 {
        assert(signers.to_set() =~= Set::<PublicId>::empty());
    } else {
        let init = signers.drop_last();
        assert(init.no_duplicates());
        lemma_accumulated_distinct(init, q);
        assert(init.push(signers.last()) == signers);
        init.lemma_push_to_set_commute(signers.last());
        signers.unique_seq_to_set();
    }
}

/// With a quorum of at least one and copies from distinct signers, the copy
/// at position `k` (counting from zero) is the one that hands the message
/// out exactly when `k + 1` is the quorum: every earlier copy and every later
/// one hands out nothing.
pub proof fn lemma_quorum_delivers_once(signers: Seq<PublicId>, q: nat, k: int)
    requires
        signers.no_duplicates(),
        q >= 1,
        0 <= k < signers.len(),
    ensures
        delivers_now(accumulated(signers.take(k), q).0, accumulated(signers.take(k), q).1, signers[k], q)
            == (k + 1 == q),
{
    let prefix = signers.take(k);
    assert(prefix.no_duplicates());
    lemma_accumulated_distinct(prefix, q);
    let next = signers.take(k + 1);
    assert(next.no_duplicates());
    assert(next == prefix.push(signers[k]));
    prefix.lemma_push_to_set_commute(signers[k]);
    next.unique_seq_to_set();
}

proof fn lemma_quorum_prefix(
    accs: Seq<MessageAccumulator>,
    times: Seq<u64>,
    signers: Seq<PublicId>,
    m: RoutingMessageView,
    k: int,
)
    requires
        accs.len() == times.len() + 1,
        signers.len() == times.len(),
        m.src.spec_is_group(),
        signers.no_duplicates(),
        accs[0].spec_quorum_size() >= 1,
        0 <= k < times.len(),
        accs[0].signers(m, times[0]) == Set::<PublicId>::empty(),
        !accs[0].delivered(m, times[0]),
        forall|i: int| 0 <= i < times.len() ==> #[trigger] accs[i + 1].added(&accs[i], m, signers[i], times[i]),
        forall|i: int| 0 <= i < times.len() - 1 ==> #[trigger] times[i] <= times[i + 1],
        forall|i: int| 0 <= i < times.len() ==> (#[trigger] times[i]) < times[0] + accs[0].expiry(),
    ensures
        accs[k].signers(m, times[k]) == signers.take(k).to_set(),
        accs[k].delivered(m, times[k]) == (k >= accs[0].spec_quorum_size()),
        accs[k].spec_quorum_size() == accs[0].spec_quorum_size(),
        accs[k].expiry() == accs[0].expiry(),
        times[0] <= times[k],
    decreases k,
{
    if k == 0 {
        assert(signers.take(0).to_set() =~= Set::<PublicId>::empty());
    } else {
        let j = k - 1;
        lemma_quorum_prefix(accs, times, signers, m, j);
        assert(accs[j + 1].added(&accs[j], m, signers[j], times[j]));
        assert(times[j] <= times[k]);
        assert(times[k] < times[0] + accs[0].expiry());
        assert(live(times[j], times[k], accs[j].expiry()));
        let prefix = signers.take(j);
        assert(signers.take(k) == prefix.push(signers[j]));
        prefix.lemma_push_to_set_commute(signers[j]);
        assert(signers.take(k).no_duplicates());
        signers.take(k).unique_seq_to_set();
    }
}

/// With a quorum of at least one, copies of a group-sourced message that the
/// accumulator does not hold, vouched for by distinct signers at
/// non-decreasing times within the window of the first copy, are handed out
/// exactly once: by the copy at position `q - 1`, counting from zero.
pub proof fn lemma_quorum_chain(
    accs: Seq<MessageAccumulator>,
    times: Seq<u64>,
    signers: Seq<PublicId>,
    m: RoutingMessageView,
)
    requires
        accs.len() == times.len() + 1,
        signers.len() == times.len(),
        m.src.spec_is_group(),
        signers.no_duplicates(),
        accs[0].spec_quorum_size() >= 1,
        times.len() > 0 ==> accs[0].signers(m, times[0]) == Set::<PublicId>::empty() && !accs[0].delivered(
            m,
            times[0],
        ),
        forall|i: int| 0 <= i < times.len() ==> #[trigger] accs[i + 1].added(&accs[i], m, signers[i], times[i]),
        forall|i: int| 0 <= i < times.len() - 1 ==> #[trigger] times[i] <= times[i + 1],
        forall|i: int| 0 <= i < times.len() ==> (#[trigger] times[i]) < times[0] + accs[0].expiry(),
    ensures
        forall|i: int|
            0 <= i < times.len() ==> #[trigger] MessageAccumulator::hands_out(&accs[i], m, signers[i], times[i]) == (i
                + 1 == accs[0].spec_quorum_size()),
{
    assert forall|i: int| 0 <= i < times.len() implies #[trigger] MessageAccumulator::hands_out(
        &accs[i],
        m,
        signers[i],
        times[i],
    ) == (i + 1 == accs[0].spec_quorum_size()) by {
        lemma_quorum_prefix(accs, times, signers, m, i);
        let prefix = signers.take(i);
        let next = signers.take(i + 1);
        assert(next == prefix.push(signers[i]));
        prefix.lemma_push_to_set_commute(signers[i]);
        assert(next.no_duplicates());
        next.unique_seq_to_set();
    }
}

} // verus!
