//! Outgoing messages that await an acknowledgement, keyed by their ack token.

use vstd::prelude::*;
use crate::messages::{RoutingMessage, RoutingMessageView};

verus! {

/// A sent message that has not been acknowledged yet.
pub struct UnacknowledgedMessage {
    pub routing_msg: RoutingMessage,
    pub route: u8,
    pub timer_token: u64,
}

/// The view of an unacknowledged message.
pub struct PendingView {
    pub msg: RoutingMessageView,
    pub route: u8,
    pub timer_token: u64,
}

impl View for UnacknowledgedMessage {
    type V = PendingView;

    open spec fn view(&self) -> PendingView {
        PendingView { msg: self.routing_msg@, route: self.route, timer_token: self.timer_token }
    }
}

struct PendingEntry {
    ack: u64,
    unacked: UnacknowledgedMessage,
}

/// Tracks unacknowledged outgoing messages.
pub struct AckManager {
    entries: Vec<PendingEntry>,
    pending: Ghost<Map<u64, PendingView>>,
}

impl AckManager {
    /// The pending messages, by ack token.
    pub closed spec fn pending(&self) -> Map<u64, PendingView> {
        self.pending@
    }

    /// The manager's internal invariant: one entry per token, matching `pending`.
    pub closed spec fn wf(&self) -> bool {
        &&& forall|i: int, j: int|
            0 <= i < self.entries@.len() && 0 <= j < self.entries@.len() && i != j
                ==> self.entries@[i].ack != self.entries@[j].ack
        &&& forall|i: int| #![trigger self.entries@[i]] 0 <= i < self.entries@.len()
            ==> self.pending@.contains_key(self.entries@[i].ack)
                && self.pending@[self.entries@[i].ack] == self.entries@[i].unacked@
        &&& forall|a: u64| #[trigger] self.pending@.contains_key(a) ==> exists|i: int|
            0 <= i < self.entries@.len() && self.entries@[i].ack == a
    }

    /// A manager with nothing pending.
    pub fn new() -> (r: Self)
        ensures
            r.wf(),
            r.pending() == Map::<u64, PendingView>::empty(),
    {
        AckManager { entries: Vec::new(), pending: Ghost(Map::empty()) }
    }

    fn index_of_ack(&self, ack: u64) -> (r: Option<usize>)
        requires
            self.wf(),
        ensures
            r is Some <==> self.pending().contains_key(ack),
            r is Some ==> r->0 < self.entries@.len() && self.entries@[r->0 as int].ack == ack,
    {
        let mut i: usize = 0;
        while i < self.entries.len()
            invariant
                self.wf(),
                i <= self.entries@.len(),
                forall|j: int| 0 <= j < i ==> self.entries@[j].ack != ack,
            decreases self.entries@.len() - i,
        {
            if self.entries[i].ack == ack {
                return Some(i);
            }
            i = i + 1;
        }
        None
    }

    fn remove_at(&mut self, i: usize) -> (r: PendingEntry)
        requires
            old(self).wf(),
            i < old(self).entries@.len(),
        ensures
            final(self).wf(),
            r == old(self).entries@[i as int],
            final(self).pending() == old(self).pending().remove(r.ack),
    {
        let ghost a = self.entries@[i as int].ack;
        let ghost olds = self.entries@;
        let r = self.entries.remove(i);
        self.pending = Ghost(self.pending@.remove(a));
        assert forall|x: int| #![trigger self.entries@[x]] 0 <= x < self.entries@.len() implies self.pending@.contains_key(
            self.entries@[x].ack,
        ) && self.pending@[self.entries@[x].ack] == self.entries@[x].unacked@ by {
            let y = if x < i { x } else { x + 1 };
            assert(self.entries@[x] == olds[y]);
            assert(olds[y] == olds[y]);
        }
        assert forall|b: u64| #[trigger] self.pending@.contains_key(b) implies exists|x: int|
            0 <= x < self.entries@.len() && self.entries@[x].ack == b by {
            let y = choose|y: int| 0 <= y < olds.len() && olds[y].ack == b;
            let x = if y < i { y } else { y - 1 };
            assert(self.entries@[x] == olds[if x < i { x } else { x + 1 }]);
        }
        r
    }

    /// Starts tracking `unacked` under `ack`, and hands back the message that
    /// was tracked under the same token before, if any.
    pub fn add_to_pending(&mut self, ack: u64, unacked: UnacknowledgedMessage) -> (r: Option<UnacknowledgedMessage>)
        requires
            old(self).wf(),
        ensures
            final(self).wf(),
            final(self).pending() == old(self).pending().insert(ack, unacked@),
            r is Some == old(self).pending().contains_key(ack),
            r is Some ==> r->0@ == old(self).pending()[ack],
    {
        let ejected = match self.index_of_ack(ack) {
            Some(i) => Some(self.remove_at(i).unacked),
            None => None,
        };
        let ghost mid = self.pending@;
        let ghost olds = self.entries@;
        let ghost v = unacked@;
        self.entries.push(PendingEntry { ack, unacked });
        self.pending = Ghost(mid.insert(ack, v));
        assert(self.entries@[olds.len() as int].ack == ack);
        assert forall|x: int| #![trigger self.entries@[x]] 0 <= x < self.entries@.len() implies self.pending@.contains_key(
            self.entries@[x].ack,
        ) && self.pending@[self.entries@[x].ack] == self.entries@[x].unacked@ by {
            if x < olds.len() {
                assert(self.entries@[x] == olds[x]);
                assert(olds[x] == olds[x]);
                assert(mid.contains_key(olds[x].ack));
            }
        }
        assert forall|b: u64| #[trigger] self.pending@.contains_key(b) implies exists|x: int|
            0 <= x < self.entries@.len() && self.entries@[x].ack == b by {
            if b != ack {
                assert(mid.contains_key(b));
                let y = choose|y: int| 0 <= y < olds.len() && olds[y].ack == b;
                assert(self.entries@[y] == olds[y]);
            }
        }
        assert(!mid.contains_key(ack));
        assert forall|p: int, q: int| 0 <= p < self.entries@.len() && 0 <= q < self.entries@.len() && p != q
            implies self.entries@[p].ack != self.entries@[q].ack by {
            if p < olds.len() {
                assert(self.entries@[p] == olds[p]);
                assert(olds[p] == olds[p]);
            }
            if q < olds.len() {
                assert(self.entries@[q] == olds[q]);
                assert(olds[q] == olds[q]);
            }
        }
        ejected
    }

    /// Handles an acknowledgement: the message tracked under `ack`, if any, is
    /// no longer pending. An unknown token changes nothing.
    pub fn receive(&mut self, ack: u64)
        requires
            old(self).wf(),
        ensures
            final(self).wf(),
            final(self).pending() == old(self).pending().remove(ack),
    {
        match self.index_of_ack(ack) {
            Some(i) => {
                let _ = self.remove_at(i);
            },
            None => {
                assert(self.pending@.remove(ack) =~= self.pending@);
            },
        }
    }

    /// Finds the pending message whose timer is `token`, stops tracking it,
    /// and hands it back with its route advanced by one (saturating), together
    /// with its ack token. `None` when no pending message has that timer.
    pub fn find_timed_out(&mut self, token: u64) -> (r: Option<(UnacknowledgedMessage, u64)>)
        requires
            old(self).wf(),
        ensures
            final(self).wf(),
            r is None ==> final(self).pending() == old(self).pending() && forall|a: u64|
                #[trigger] old(self).pending().contains_key(a) ==> old(self).pending()[a].timer_token != token,
            r is Some ==> {
                let (m, a) = r->0;
                &&& old(self).pending().contains_key(a)
                &&& old(self).pending()[a].timer_token == token
                &&& m.routing_msg@ == old(self).pending()[a].msg
                &&& m.timer_token == token
                &&& m.route as int == if old(self).pending()[a].route < u8::MAX {
                    old(self).pending()[a].route + 1
                } else {
                    u8::MAX as int
                }
                &&& final(self).pending() == old(self).pending().remove(a)
            },
    {
        let mut i: usize = 0;
        while i < self.entries.len()
            invariant
                self.wf(),
                i <= self.entries@.len(),
                forall|j: int| 0 <= j < i ==> self.entries@[j].unacked.timer_token != token,
                self.pending() == old(self).pending(),
                self.entries@ == old(self).entries@,
            decreases self.entries@.len() - i,
        {
            if self.entries[i].unacked.timer_token == token {
                assert(self.entries@[i as int] == self.entries@[i as int]);
                let e = self.remove_at(i);
                let mut unacked = e.unacked;
                unacked.route = unacked.route.saturating_add(1);
                return Some((unacked, e.ack));
            }
            i = i + 1;
        }
        assert forall|a: u64| #[trigger] self.pending@.contains_key(a) implies self.pending@[a].timer_token != token by {
            let y = choose|y: int| 0 <= y < self.entries@.len() && self.entries@[y].ack == a;
            assert(self.entries@[y] == self.entries@[y]);
        }
        None
    }

    /// Whether any message awaits an acknowledgement.
    pub fn has_pending(&self) -> (r: bool)
        requires
            self.wf(),
        ensures
            r == !self.pending().is_empty(),
    {
        if self.entries.len() == 0 {
            assert(self.pending@ =~= Map::<u64, PendingView>::empty());
            false
        } else {
            assert(self.pending@.contains_key(self.entries@[0].ack));
            true
        }
    }

    /// The timer tokens of all pending messages.
    pub fn timer_tokens(&self) -> (r: Vec<u64>)
        requires
            self.wf(),
        ensures
            forall|t: u64| r@.contains(t) <==> exists|a: u64|
                #[trigger] self.pending().contains_key(a) && self.pending()[a].timer_token == t,
    {
        let mut r: Vec<u64> = Vec::new();
        let mut i: usize = 0;
        while i < self.entries.len()
            invariant
                self.wf(),
                i <= self.entries@.len(),
                forall|t: u64| r@.contains(t) <==> exists|j: int| 0 <= j < i && self.entries@[j].unacked.timer_token == t,
            decreases self.entries@.len() - i,
        {
            let ghost before = r@;
            r.push(self.entries[i].unacked.timer_token);
            assert forall|t: u64| r@.contains(t) <==> exists|j: int| 0 <= j < i + 1 && self.entries@[j].unacked.timer_token == t by {
                if r@.contains(t) {
                    let k = choose|k: int| 0 <= k < r@.len() && r@[k] == t;
                    if k < before.len() {
                        assert(before[k] == t);
                        assert(before.contains(t));
                    }
                }
                if exists|j: int| 0 <= j < i + 1 && self.entries@[j].unacked.timer_token == t {
                    let j = choose|j: int| 0 <= j < i + 1 && self.entries@[j].unacked.timer_token == t;
                    if j < i {
                        assert(before.contains(t));
                        let k = choose|k: int| 0 <= k < before.len() && before[k] == t;
                        assert(r@[k] == t);
                    } else {
                        assert(r@[before.len() as int] == t);
                    }
                }
            }
            i = i + 1;
        }
        assert forall|t: u64| r@.contains(t) <==> exists|a: u64|
            #[trigger] self.pending().contains_key(a) && self.pending()[a].timer_token == t by {
            if exists|j: int| 0 <= j < i && self.entries@[j].unacked.timer_token == t {
                let j = choose|j: int| 0 <= j < i && self.entries@[j].unacked.timer_token == t;
                assert(self.entries@[j] == self.entries@[j]);
                assert(self.pending().contains_key(self.entries@[j].ack));
            }
            if exists|a: u64| #[trigger] self.pending().contains_key(a) && self.pending()[a].timer_token == t {
                let a = choose|a: u64| #[trigger] self.pending().contains_key(a) && self.pending()[a].timer_token == t;
                let y = choose|y: int| 0 <= y < self.entries@.len() && self.entries@[y].ack == a;
                assert(self.entries@[y] == self.entries@[y]);
            }
        }
        r
    }
}

} // verus!
