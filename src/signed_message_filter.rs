//! Time-bounded duplicate suppression for incoming and outgoing signed messages.
//!
//! Time is a number of seconds handed in by the caller. An entry stamped at
//! `stamp` is alive at `now` while `now < stamp + expiry`; eviction happens on
//! each insertion.

use vstd::prelude::*;
use crate::id::{PeerId, PublicId};
use crate::messages::{RoutingMessageView, SignedMessage, SignedMessageView};

verus! {

/// How long an incoming message is remembered, in seconds.
pub const INCOMING_EXPIRY_DURATION_SECS: u64 = 1200;

/// How long an outgoing message is remembered, in seconds.
pub const OUTGOING_EXPIRY_DURATION_SECS: u64 = 600;

/// Whether an entry stamped at `stamp` is still remembered at `now`.
pub open spec fn live(stamp: u64, now: u64, expiry: u64) -> bool {
    (now as int) < stamp as int + expiry as int
}

/// Executable form of `live`.
pub fn is_live(stamp: u64, now: u64, expiry: u64) -> (r: bool)
    ensures
        r == live(stamp, now, expiry),
{
    if now < stamp {
        true
    } else {
        now - stamp < expiry
    }
}

struct IncomingEntry {
    msg: SignedMessage,
    count: usize,
    last_seen: u64,
}

/// What an outgoing entry is keyed by: the message, its signer, the peer and the route.
pub struct OutgoingKey {
    pub msg: RoutingMessageView,
    pub signer: PublicId,
    pub peer: PeerId,
    pub route: u8,
}

struct OutgoingEntry {
    msg: SignedMessage,
    peer: PeerId,
    route: u8,
    sent_at: u64,
}

impl OutgoingEntry {
    spec fn key(&self) -> OutgoingKey {
        OutgoingKey {
            msg: self.msg.routing_message@,
            signer: self.msg.public_id,
            peer: self.peer,
            route: self.route,
        }
    }
}

spec fn incoming_match(e: IncomingEntry, m: SignedMessageView, now: u64, expiry: u64) -> bool {
    e.msg@ == m && live(e.last_seen, now, expiry)
}

spec fn outgoing_match(e: OutgoingEntry, k: OutgoingKey, now: u64, expiry: u64) -> bool {
    e.key() == k && live(e.sent_at, now, expiry)
}

spec fn incoming_unique(s: Seq<IncomingEntry>) -> bool {
    forall|i: int, j: int| 0 <= i < s.len() && 0 <= j < s.len() && i != j ==> s[i].msg@ != s[j].msg@
}

spec fn outgoing_unique(s: Seq<OutgoingEntry>) -> bool {
    forall|i: int, j: int| 0 <= i < s.len() && 0 <= j < s.len() && i != j ==> s[i].key() != s[j].key()
}

spec fn incoming_count_in(s: Seq<IncomingEntry>, m: SignedMessageView, now: u64, expiry: u64) -> nat {
    if exists|i: int| 0 <= i < s.len() && #[trigger] incoming_match(s[i], m, now, expiry) {
        s[choose|i: int| 0 <= i < s.len() && #[trigger] incoming_match(s[i], m, now, expiry)].count as nat
    } else {
        0
    }
}

spec fn sent_in(s: Seq<OutgoingEntry>, k: OutgoingKey, now: u64, expiry: u64) -> bool {
    exists|i: int| 0 <= i < s.len() && #[trigger] outgoing_match(s[i], k, now, expiry)
}

proof fn lemma_incoming_count_at(s: Seq<IncomingEntry>, m: SignedMessageView, now: u64, expiry: u64, k: int)
    requires
        incoming_unique(s),
        0 <= k < s.len(),
        incoming_match(s[k], m, now, expiry),
    ensures
        incoming_count_in(s, m, now, expiry) == s[k].count,
{
    let j = choose|i: int| 0 <= i < s.len() && #[trigger] incoming_match(s[i], m, now, expiry);
    assert(incoming_match(s[j], m, now, expiry));
}

/// Filters (throttles) incoming and outgoing signed messages.
pub struct SignedMessageFilter {
    incoming: Vec<IncomingEntry>,
    outgoing: Vec<OutgoingEntry>,
    incoming_expiry: u64,
    outgoing_expiry: u64,
}

impl SignedMessageFilter {
    /// The filter's internal invariant: one entry per message, one per outgoing key.
    pub closed spec fn wf(&self) -> bool {
        incoming_unique(self.incoming@) && outgoing_unique(self.outgoing@)
    }

    /// How long incoming messages are remembered.
    pub closed spec fn incoming_expiry(&self) -> u64 {
        self.incoming_expiry
    }

    /// How long outgoing messages are remembered.
    pub closed spec fn outgoing_expiry(&self) -> u64 {
        self.outgoing_expiry
    }

    /// How many times `m` has been seen and is still remembered at `now`.
    pub closed spec fn incoming_count(&self, m: SignedMessageView, now: u64) -> nat {
        incoming_count_in(self.incoming@, m, now, self.incoming_expiry)
    }

    /// Whether the outgoing key `k` was recorded and is still remembered at `now`.
    pub closed spec fn was_sent(&self, k: OutgoingKey, now: u64) -> bool {
        sent_in(self.outgoing@, k, now, self.outgoing_expiry)
    }

    /// A filter that remembers incoming messages for twenty minutes and
    /// outgoing ones for ten.
    pub fn new() -> (r: Self)
        ensures
            r.wf(),
            r.incoming_expiry() == INCOMING_EXPIRY_DURATION_SECS,
            r.outgoing_expiry() == OUTGOING_EXPIRY_DURATION_SECS,
            forall|m: SignedMessageView, t: u64| r.incoming_count(m, t) == 0,
            forall|k: OutgoingKey, t: u64| !r.was_sent(k, t),
    {
        Self::with_expiry_durations(INCOMING_EXPIRY_DURATION_SECS, OUTGOING_EXPIRY_DURATION_SECS)
    }

    /// An empty filter with the given expiry durations, in seconds.
    pub fn with_expiry_durations(incoming_secs: u64, outgoing_secs: u64) -> (r: Self)
        ensures
            r.wf(),
            r.incoming_expiry() == incoming_secs,
            r.outgoing_expiry() == outgoing_secs,
            forall|m: SignedMessageView, t: u64| r.incoming_count(m, t) == 0,
            forall|k: OutgoingKey, t: u64| !r.was_sent(k, t),
    {
        SignedMessageFilter {
            incoming: Vec::new(),
            outgoing: Vec::new(),
            incoming_expiry: incoming_secs,
            outgoing_expiry: outgoing_secs,
        }
    }
}

impl IncomingEntry {
    fn duplicate(&self) -> (r: IncomingEntry)
        ensures
            r.msg@ == self.msg@,
            r.count == self.count,
            r.last_seen == self.last_seen,
    {
        IncomingEntry { msg: self.msg.clone(), count: self.count, last_seen: self.last_seen }
    }
}

impl OutgoingEntry {
    fn duplicate(&self) -> (r: OutgoingEntry)
        ensures
            r.key() == self.key(),
            r.sent_at == self.sent_at,
    {
        OutgoingEntry { msg: self.msg.clone(), peer: self.peer, route: self.route, sent_at: self.sent_at }
    }
}

impl SignedMessageFilter {
    /// What recording `msg` at `now` with result `r` did, `prev` being the
    /// filter before: `r` is the previous count plus one (saturating); the
    /// message is counted `r` until its window from `now` ends; other
    /// messages keep their counts from `now` on; the outgoing side is unchanged.
    pub open spec fn recorded(&self, prev: &SignedMessageFilter, msg: SignedMessageView, now: u64, r: usize) -> bool {
        &&& self.wf()
        &&& self.incoming_expiry() == prev.incoming_expiry()
        &&& self.outgoing_expiry() == prev.outgoing_expiry()
        &&& r as nat == if prev.incoming_count(msg, now) < usize::MAX {
            prev.incoming_count(msg, now) + 1
        } else {
            usize::MAX as nat
        }
        &&& forall|t: u64|
            #[trigger] self.incoming_count(msg, t) == if live(now, t, self.incoming_expiry()) {
                r as nat
            } else {
                0
            }
        &&& forall|m: SignedMessageView, t: u64|
            m != msg && t >= now ==> #[trigger] self.incoming_count(m, t) == prev.incoming_count(m, t)
        &&& forall|k: OutgoingKey, t: u64| #[trigger] self.was_sent(k, t) == prev.was_sent(k, t)
    }

    /// Records an incoming message at time `now` and returns how many times
    /// this exact message has been seen within the expiry window, this time
    /// included (saturating at `usize::MAX`). The entry's stamp is refreshed to
    /// `now`; entries expired at `now` are evicted.
    pub fn filter_incoming(&mut self, msg: &SignedMessage, now: u64) -> (r: usize)
        requires
            old(self).wf(),
        ensures
            final(self).wf(),
            final(self).incoming_expiry() == old(self).incoming_expiry(),
            final(self).outgoing_expiry() == old(self).outgoing_expiry(),
            r as nat == if old(self).incoming_count(msg@, now) < usize::MAX {
                old(self).incoming_count(msg@, now) + 1
            } else {
                usize::MAX as nat
            },
            forall|t: u64|
                final(self).incoming_count(msg@, t) == if live(now, t, final(self).incoming_expiry()) {
                    r as nat
                } else {
                    0
                },
            forall|m: SignedMessageView, t: u64|
                m != msg@ && t >= now ==> final(self).incoming_count(m, t) == old(self).incoming_count(m, t),
            forall|k: OutgoingKey, t: u64| final(self).was_sent(k, t) == old(self).was_sent(k, t),
            final(self).recorded(old(self), msg@, now, r),
    {
        let expiry = self.incoming_expiry;
        let ghost olds = self.incoming@;
        let mut kept: Vec<IncomingEntry> = Vec::new();
        let mut found: bool = false;
        let mut count: usize = 0;
        let mut i: usize = 0;
        while i < self.incoming.len()
            invariant
                self.incoming@ == olds,
                self.incoming_expiry == expiry,
                incoming_unique(olds),
                i <= olds.len(),
                incoming_unique(kept@),
                forall|j: int| 0 <= j < kept@.len() ==> kept@[j].msg@ != msg@ && live(kept@[j].last_seen, now, expiry),
                forall|j: int| #![trigger kept@[j]] 0 <= j < kept@.len() ==> exists|x: int|
                    0 <= x < i && olds[x].msg@ == kept@[j].msg@ && olds[x].count == kept@[j].count
                        && olds[x].last_seen == kept@[j].last_seen,
                forall|x: int| #![trigger olds[x]] 0 <= x < i && olds[x].msg@ != msg@ && live(olds[x].last_seen, now, expiry)
                    ==> exists|j: int| 0 <= j < kept@.len() && kept@[j].msg@ == olds[x].msg@
                        && kept@[j].count == olds[x].count && kept@[j].last_seen == olds[x].last_seen,
                found == exists|x: int| 0 <= x < i && #[trigger] incoming_match(olds[x], msg@, now, expiry),
                found ==> exists|x: int| 0 <= x < i && #[trigger] incoming_match(olds[x], msg@, now, expiry)
                    && olds[x].count == count,
            decreases olds.len() - i,
        {
            let e = &self.incoming[i];
            if is_live(e.last_seen, now, expiry) {
                if e.msg.same_as(msg) {
                    found = true;
                    count = e.count;
                    assert(incoming_match(olds[i as int], msg@, now, expiry));
                } else {
                    let ghost before = kept@;
                    kept.push(e.duplicate());
                    assert forall|a: int, b: int| 0 <= a < kept@.len() && 0 <= b < kept@.len() && a != b
                        implies kept@[a].msg@ != kept@[b].msg@ by {
                        if a == before.len() as int || b == before.len() as int {
                            let c = if a == before.len() as int { b } else { a };
                            let x = choose|x: int| 0 <= x < i && olds[x].msg@ == kept@[c].msg@
                                && olds[x].count == kept@[c].count && olds[x].last_seen == kept@[c].last_seen;
                            assert(x != i as int);
                        }
                    }
                    assert(kept@[before.len() as int].msg@ == olds[i as int].msg@);
                    assert forall|x: int| #![trigger olds[x]] 0 <= x <= i && olds[x].msg@ != msg@
                        && live(olds[x].last_seen, now, expiry) implies exists|j: int| 0 <= j < kept@.len()
                        && kept@[j].msg@ == olds[x].msg@ && kept@[j].count == olds[x].count
                        && kept@[j].last_seen == olds[x].last_seen by {
                        if x < i {
                            let j = choose|j: int| 0 <= j < before.len() && before[j].msg@ == olds[x].msg@
                                && before[j].count == olds[x].count && before[j].last_seen == olds[x].last_seen;
                            assert(kept@[j] == before[j]);
                        } else {
                            assert(kept@[before.len() as int].msg@ == olds[x].msg@);
                        }
                    }
                }
            }
            i = i + 1;
        }
        let ghost oldc = incoming_count_in(olds, msg@, now, expiry);
        if found {
            let ghost x = choose|x: int| 0 <= x < olds.len() && #[trigger] incoming_match(olds[x], msg@, now, expiry)
                && olds[x].count == count;
            proof { lemma_incoming_count_at(olds, msg@, now, expiry, x); }
        }
        let r: usize = if found { count.saturating_add(1) } else { 1 };
        let ghost before = kept@;
        kept.push(IncomingEntry { msg: msg.clone(), count: r, last_seen: now });
        let ghost news = kept@;
        assert(incoming_unique(news)) by {
            assert forall|a: int, b: int| 0 <= a < news.len() && 0 <= b < news.len() && a != b
                implies news[a].msg@ != news[b].msg@ by {
                if a != before.len() as int && b != before.len() as int {
                    assert(news[a] == before[a] && news[b] == before[b]);
                } else if a == before.len() as int {
                    assert(news[b] == before[b]);
                } else {
                    assert(news[a] == before[a]);
                }
            }
        }
        let ghost last = before.len() as int;
        assert forall|t: u64| incoming_count_in(news, msg@, t, expiry) == if live(now, t, expiry) {
            r as nat
        } else {
            0
        } by {
            if live(now, t, expiry) {
                assert(incoming_match(news[last], msg@, t, expiry));
                lemma_incoming_count_at(news, msg@, t, expiry, last);
            } else {
                assert forall|y: int| 0 <= y < news.len() implies !#[trigger] incoming_match(news[y], msg@, t, expiry) by {
                    if y != last {
                        assert(news[y] == before[y]);
                    }
                }
            }
        }
        assert forall|m: SignedMessageView, t: u64| m != msg@ && t >= now implies incoming_count_in(news, m, t, expiry)
            == incoming_count_in(olds, m, t, expiry) by {
            if exists|x: int| 0 <= x < olds.len() && #[trigger] incoming_match(olds[x], m, t, expiry) {
                let x = choose|x: int| 0 <= x < olds.len() && #[trigger] incoming_match(olds[x], m, t, expiry);
                assert(live(olds[x].last_seen, now, expiry));
                assert(olds[x] == olds[x]);
                let j = choose|j: int| 0 <= j < before.len() && before[j].msg@ == olds[x].msg@
                    && before[j].count == olds[x].count && before[j].last_seen == olds[x].last_seen;
                assert(news[j] == before[j]);
                assert(incoming_match(news[j], m, t, expiry));
                lemma_incoming_count_at(news, m, t, expiry, j);
                lemma_incoming_count_at(olds, m, t, expiry, x);
            } else {
                assert forall|y: int| 0 <= y < news.len() implies !#[trigger] incoming_match(news[y], m, t, expiry) by {
                    if y != last {
                        assert(news[y] == before[y]);
                        assert(before[y] == before[y]);
                        if incoming_match(news[y], m, t, expiry) {
                            let x = choose|x: int| 0 <= x < i && olds[x].msg@ == before[y].msg@
                                && olds[x].count == before[y].count && olds[x].last_seen == before[y].last_seen;
                            assert(incoming_match(olds[x], m, t, expiry));
                        }
                    }
                }
            }
        }
        self.incoming = kept;
        r
    }
}

/// The outgoing key of `msg` sent to `peer` via `route`.
pub open spec fn outgoing_key(msg: SignedMessageView, peer: PeerId, route: u8) -> OutgoingKey {
    OutgoingKey { msg: msg.routing_message, signer: msg.public_id, peer, route }
}

impl SignedMessageFilter {
    /// Records an outgoing message for `peer` via `route` at time `now`, and
    /// returns whether the same message, signed by the same identity, was
    /// already recorded for that peer and route within the expiry window. The
    /// signature is a function of the message and the signer, so it is not part
    /// of the key. Entries expired at `now` are evicted.
    pub fn filter_outgoing(&mut self, msg: &SignedMessage, peer_id: &PeerId, route: u8, now: u64) -> (r: bool)
        requires
            old(self).wf(),
        ensures
            final(self).wf(),
            final(self).incoming_expiry() == old(self).incoming_expiry(),
            final(self).outgoing_expiry() == old(self).outgoing_expiry(),
            r == old(self).was_sent(outgoing_key(msg@, *peer_id, route), now),
            forall|t: u64|
                final(self).was_sent(outgoing_key(msg@, *peer_id, route), t) == live(
                    now,
                    t,
                    final(self).outgoing_expiry(),
                ),
            forall|k: OutgoingKey, t: u64|
                k != outgoing_key(msg@, *peer_id, route) && t >= now ==> final(self).was_sent(k, t) == old(
                    self,
                ).was_sent(k, t),
            forall|m: SignedMessageView, t: u64| final(self).incoming_count(m, t) == old(self).incoming_count(m, t),
    {
        let expiry = self.outgoing_expiry;
        let ghost olds = self.outgoing@;
        let ghost key = outgoing_key(msg@, *peer_id, route);
        let mut kept: Vec<OutgoingEntry> = Vec::new();
        let mut found: bool = false;
        let mut i: usize = 0;
        while i < self.outgoing.len()
            invariant
                self.outgoing@ == olds,
                self.outgoing_expiry == expiry,
                outgoing_unique(olds),
                i <= olds.len(),
                key == outgoing_key(msg@, *peer_id, route),
                outgoing_unique(kept@),
                forall|j: int| 0 <= j < kept@.len() ==> kept@[j].key() != key && live(kept@[j].sent_at, now, expiry),
                forall|j: int| #![trigger kept@[j]] 0 <= j < kept@.len() ==> exists|x: int|
                    0 <= x < i && olds[x].key() == kept@[j].key() && olds[x].sent_at == kept@[j].sent_at,
                forall|x: int| #![trigger olds[x]] 0 <= x < i && olds[x].key() != key && live(olds[x].sent_at, now, expiry)
                    ==> exists|j: int| 0 <= j < kept@.len() && kept@[j].key() == olds[x].key()
                        && kept@[j].sent_at == olds[x].sent_at,
                found == exists|x: int| 0 <= x < i && #[trigger] outgoing_match(olds[x], key, now, expiry),
            decreases olds.len() - i,
        {
            let e = &self.outgoing[i];
            if is_live(e.sent_at, now, expiry) {
                if e.peer == *peer_id && e.route == route && e.msg.public_id == msg.public_id
                    && e.msg.routing_message.same_as(&msg.routing_message) {
                    found = true;
                    assert(outgoing_match(olds[i as int], key, now, expiry));
                } else {
                    let ghost before = kept@;
                    kept.push(e.duplicate());
                    assert forall|a: int, b: int| 0 <= a < kept@.len() && 0 <= b < kept@.len() && a != b
                        implies kept@[a].key() != kept@[b].key() by {
                        if a == before.len() as int || b == before.len() as int {
                            let c = if a == before.len() as int { b } else { a };
                            let x = choose|x: int| 0 <= x < i && olds[x].key() == kept@[c].key()
                                && olds[x].sent_at == kept@[c].sent_at;
                            assert(x != i as int);
                        }
                    }
                    assert forall|x: int| #![trigger olds[x]] 0 <= x <= i && olds[x].key() != key
                        && live(olds[x].sent_at, now, expiry) implies exists|j: int| 0 <= j < kept@.len()
                        && kept@[j].key() == olds[x].key() && kept@[j].sent_at == olds[x].sent_at by {
                        if x < i {
                            let j = choose|j: int| 0 <= j < before.len() && before[j].key() == olds[x].key()
                                && before[j].sent_at == olds[x].sent_at;
                            assert(kept@[j] == before[j]);
                        } else {
                            assert(kept@[before.len() as int].key() == olds[x].key());
                        }
                    }
                }
            }
            i = i + 1;
        }
        let ghost before = kept@;
        kept.push(OutgoingEntry { msg: msg.clone(), peer: *peer_id, route, sent_at: now });
        let ghost news = kept@;
        let ghost last = before.len() as int;
        assert(news[last].key() == key);
        assert(outgoing_unique(news)) by {
            assert forall|a: int, b: int| 0 <= a < news.len() && 0 <= b < news.len() && a != b
                implies news[a].key() != news[b].key() by {
                if a != last && b != last {
                    assert(news[a] == before[a] && news[b] == before[b]);
                } else if a == last {
                    assert(news[b] == before[b]);
                } else {
                    assert(news[a] == before[a]);
                }
            }
        }
        assert forall|t: u64| sent_in(news, key, t, expiry) == live(now, t, expiry) by {
            if live(now, t, expiry) {
                assert(outgoing_match(news[last], key, t, expiry));
            } else {
                assert forall|y: int| 0 <= y < news.len() implies !#[trigger] outgoing_match(news[y], key, t, expiry) by {
                    if y != last {
                        assert(news[y] == before[y]);
                    }
                }
            }
        }
        assert forall|k: OutgoingKey, t: u64| k != key && t >= now implies sent_in(news, k, t, expiry) == sent_in(olds, k, t, expiry) by {
            if sent_in(olds, k, t, expiry) {
                let x = choose|x: int| 0 <= x < olds.len() && #[trigger] outgoing_match(olds[x], k, t, expiry);
                assert(live(olds[x].sent_at, now, expiry));
                assert(olds[x] == olds[x]);
                let j = choose|j: int| 0 <= j < before.len() && before[j].key() == olds[x].key()
                    && before[j].sent_at == olds[x].sent_at;
                assert(news[j] == before[j]);
                assert(outgoing_match(news[j], k, t, expiry));
            } else {
                assert forall|y: int| 0 <= y < news.len() implies !#[trigger] outgoing_match(news[y], k, t, expiry) by {
                    if y != last {
                        assert(news[y] == before[y]);
                        assert(before[y] == before[y]);
                        if outgoing_match(news[y], k, t, expiry) {
                            let x = choose|x: int| 0 <= x < i && olds[x].key() == before[y].key()
                                && olds[x].sent_at == before[y].sent_at;
                            assert(outgoing_match(olds[x], k, t, expiry));
                        }
                    }
                }
            }
        }
        self.outgoing = kept;
        found
    }

    /// Forgets every recorded message.
    pub fn clear(&mut self)
        ensures
            final(self).wf(),
            final(self).incoming_expiry() == old(self).incoming_expiry(),
            final(self).outgoing_expiry() == old(self).outgoing_expiry(),
            forall|m: SignedMessageView, t: u64| final(self).incoming_count(m, t) == 0,
            forall|k: OutgoingKey, t: u64| !final(self).was_sent(k, t),
    {
        self.incoming = Vec::new();
        self.outgoing = Vec::new();
    }
}

proof fn lemma_incoming_prefix(
    fs: Seq<SignedMessageFilter>,
    times: Seq<u64>,
    rs: Seq<usize>,
    m: SignedMessageView,
    k: int,
)
    requires
        fs.len() == times.len() + 1,
        rs.len() == times.len(),
        times.len() < usize::MAX,
        0 <= k < times.len(),
        fs[0].incoming_count(m, times[0]) == 0,
        forall|i: int| 0 <= i < times.len() ==> #[trigger] fs[i + 1].recorded(&fs[i], m, times[i], rs[i]),
        forall|i: int| 0 <= i < times.len() - 1 ==> #[trigger] times[i] <= times[i + 1],
        forall|i: int| 0 <= i < times.len() ==> (#[trigger] times[i]) < times[0] + fs[0].incoming_expiry(),
    ensures
        rs[k] == k + 1,
        fs[k + 1].incoming_expiry() == fs[0].incoming_expiry(),
        times[0] <= times[k],
    decreases k,
{
    assert(fs[k + 1].recorded(&fs[k], m, times[k], rs[k]));
    if k > 0 {
        lemma_incoming_prefix(fs, times, rs, m, k - 1);
        assert(fs[k].recorded(&fs[k - 1], m, times[k - 1], rs[k - 1]));
        assert(times[k - 1] <= times[k]);
        assert(times[k] < times[0] + fs[0].incoming_expiry());
        assert(times[0] <= times[k - 1]);
        assert(live(times[k - 1], times[k], fs[k].incoming_expiry()));
        assert(fs[k].incoming_count(m, times[k]) == rs[k - 1]);
    }
}

/// Recording a message that the filter does not hold, again and again at
/// non-decreasing times all within the incoming window of the first
/// recording, returns 1, 2, 3, ... in turn.
pub proof fn lemma_incoming_counts_up(
    fs: Seq<SignedMessageFilter>,
    times: Seq<u64>,
    rs: Seq<usize>,
    m: SignedMessageView,
)
    requires
        fs.len() == times.len() + 1,
        rs.len() == times.len(),
        times.len() < usize::MAX,
        times.len() > 0 ==> fs[0].incoming_count(m, times[0]) == 0,
        forall|i: int| 0 <= i < times.len() ==> #[trigger] fs[i + 1].recorded(&fs[i], m, times[i], rs[i]),
        forall|i: int| 0 <= i < times.len() - 1 ==> #[trigger] times[i] <= times[i + 1],
        forall|i: int| 0 <= i < times.len() ==> (#[trigger] times[i]) < times[0] + fs[0].incoming_expiry(),
    ensures
        forall|i: int| 0 <= i < rs.len() ==> #[trigger] rs[i] == i + 1,
{
    assert forall|i: int| 0 <= i < rs.len() implies #[trigger] rs[i] == i + 1 by {
        lemma_incoming_prefix(fs, times, rs, m, i);
    }
}

} // verus!
