//! Splitting of user messages into numbered parts, and their reassembly.

use vstd::prelude::*;
use crate::messages::MessageContent;
use crate::signed_message_filter::{is_live, live};

verus! {

/// How long an incomplete set of parts is remembered, in seconds.
pub const USER_MSG_CACHE_EXPIRY_DURATION_SECS: u64 = 120;

/// Largest payload of one part, in bytes.
pub const MAX_PART_LEN: usize = 20480;

/// Number of parts a payload of `len` bytes is split into: at least one.
pub open spec fn part_count_for(len: nat, max: nat) -> nat
    recommends
        max > 0,
{
    if len == 0 {
        1
    } else {
        ((len + max - 1) as int / max as int) as nat
    }
}

/// The bytes of `payload` that part `i` carries.
pub open spec fn part_payload(payload: Seq<u8>, max: nat, i: nat) -> Seq<u8> {
    let start = i * max;
    let end = if (i + 1) * max <= payload.len() { (i + 1) * max } else { payload.len() as nat };
    payload.subrange(start as int, end as int)
}

/// The concatenation of the parts `0 .. n` of `parts`, in index order.
pub open spec fn joined(parts: Map<u32, Seq<u8>>, n: nat) -> Seq<u8>
    decreases n,
{
    if n == 0 {
        Seq::empty()
    } else {
        joined(parts, (n - 1) as nat) + parts[(n - 1) as u32]
    }
}

/// Splits `payload`, whose fingerprint is `hash`, into parts of at most
/// `max_part_len` bytes, numbered from zero. `None` when the number of parts
/// does not fit in a `u32`.
pub fn to_parts(hash: u64, payload: &Vec<u8>, priority: u8, max_part_len: usize) -> (r: Option<Vec<MessageContent>>)
    requires
        max_part_len > 0,
    ensures
        r is None <==> part_count_for(payload@.len(), max_part_len as nat) > u32::MAX,
        r is Some ==> {
            let parts = r->0@;
            &&& parts.len() == part_count_for(payload@.len(), max_part_len as nat)
            &&& forall|i: int| #![trigger parts[i]] 0 <= i < parts.len() ==> parts[i]@ == (
            crate::messages::ContentView::UserMessagePart {
                hash,
                part_count: parts.len() as u32,
                part_index: i as u32,
                priority,
                payload: part_payload(payload@, max_part_len as nat, i as nat),
            })
        },
{
    let len = payload.len();
    let q = len / max_part_len;
    let rem = len % max_part_len;
    assert(rem != 0 ==> q < usize::MAX) by (nonlinear_arith)
        requires
            q == len / max_part_len,
            rem == len % max_part_len,
            max_part_len > 0,
            len <= usize::MAX,
    {
    }
    let count: usize = if len == 0 {
        1
    } else if rem == 0 {
        q
    } else {
        q + 1
    };
    assert(count == part_count_for(len as nat, max_part_len as nat)) by (nonlinear_arith)
        requires
            max_part_len > 0,
            count == (if len == 0 { 1 } else { len / max_part_len + if len % max_part_len == 0 { 0int } else { 1 } }),
    {
    }
    if count > 4294967295 {
        return None;
    }
    let mut parts: Vec<MessageContent> = Vec::new();
    let mut i: usize = 0;
    while i < count
        invariant
            count <= u32::MAX,
            count == part_count_for(len as nat, max_part_len as nat),
            len == payload@.len(),
            max_part_len > 0,
            i <= count,
            parts@.len() == i,
            forall|k: int| #![trigger parts@[k]] 0 <= k < i ==> parts@[k]@ == (
            crate::messages::ContentView::UserMessagePart {
                hash,
                part_count: count as u32,
                part_index: k as u32,
                priority,
                payload: part_payload(payload@, max_part_len as nat, k as nat),
            }),
        decreases count - i,
    {
        assert(i * max_part_len <= len) by (nonlinear_arith)
            requires
                i < count,
                max_part_len > 0,
                count == part_count_for(len as nat, max_part_len as nat),
        {
        }
        let start = i * max_part_len;
        let end = if len - start <= max_part_len { len } else { start + max_part_len };
        assert(end == (if (i + 1) * max_part_len <= len { (i + 1) * max_part_len } else { len as int })) by (nonlinear_arith)
            requires
                start == i * max_part_len,
                end == (if len - start <= max_part_len { len as int } else { start + max_part_len }),
                start <= len,
        {
        }
        let mut chunk: Vec<u8> = Vec::new();
        let mut j: usize = start;
        while j < end
            invariant
                start <= j <= end,
                end <= len,
                len == payload@.len(),
                chunk@ == payload@.subrange(start as int, j as int),
            decreases end - j,
        {
            chunk.push(payload[j]);
            j = j + 1;
            assert(chunk@ =~= payload@.subrange(start as int, j as int));
        }
        parts.push(MessageContent::UserMessagePart {
            hash,
            part_count: count as u32,
            part_index: i as u32,
            priority,
            payload: chunk,
        });
        i = i + 1;
    }
    Some(parts)
}

struct Part {
    index: u32,
    payload: Vec<u8>,
}

struct PartialMessage {
    hash: u64,
    part_count: u32,
    parts: Vec<Part>,
    stamp: u64,
}

/// The parts received so far, by index; a later copy of an index replaces an earlier one.
spec fn part_map(s: Seq<Part>) -> Map<u32, Seq<u8>>
    decreases s.len(),
{
    if s.len() == 0 {
        Map::empty()
    } else {
        part_map(s.drop_last()).insert(s.last().index, s.last().payload@)
    }
}

proof fn lemma_part_map_last(s: Seq<Part>, i: u32, j: int)
    requires
        0 <= j < s.len(),
        s[j].index == i,
        forall|k: int| j < k < s.len() ==> s[k].index != i,
    ensures
        part_map(s).contains_key(i),
        part_map(s)[i] == s[j].payload@,
    decreases s.len(),
{
    if j < s.len() - 1 {
        lemma_part_map_last(s.drop_last(), i, j);
    }
}

proof fn lemma_part_map_absent(s: Seq<Part>, i: u32)
    requires
        forall|k: int| 0 <= k < s.len() ==> s[k].index != i,
    ensures
        !part_map(s).contains_key(i),
    decreases s.len(),
{
    if s.len() > 0 {
        lemma_part_map_absent(s.drop_last(), i);
    }
}

/// Whether `parts` holds every index below `count`.
pub open spec fn complete(parts: Map<u32, Seq<u8>>, count: u32) -> bool {
    forall|i: u32| i < count ==> #[trigger] parts.contains_key(i)
}

spec fn pm_match(e: PartialMessage, hash: u64, count: u32, now: u64, expiry: u64) -> bool {
    e.hash == hash && e.part_count == count && live(e.stamp, now, expiry)
}

spec fn pm_unique(s: Seq<PartialMessage>) -> bool {
    forall|i: int, j: int|
        0 <= i < s.len() && 0 <= j < s.len() && i != j ==> (s[i].hash, s[i].part_count) != (s[j].hash, s[j].part_count)
}

spec fn parts_in(s: Seq<PartialMessage>, hash: u64, count: u32, now: u64, expiry: u64) -> Map<u32, Seq<u8>> {
    if exists|i: int| 0 <= i < s.len() && #[trigger] pm_match(s[i], hash, count, now, expiry) {
        part_map(s[choose|i: int| 0 <= i < s.len() && #[trigger] pm_match(s[i], hash, count, now, expiry)].parts@)
    } else {
        Map::empty()
    }
}

proof fn lemma_parts_at(s: Seq<PartialMessage>, hash: u64, count: u32, now: u64, expiry: u64, k: int)
    requires
        pm_unique(s),
        0 <= k < s.len(),
        pm_match(s[k], hash, count, now, expiry),
    ensures
        parts_in(s, hash, count, now, expiry) == part_map(s[k].parts@),
{
    let j = choose|i: int| 0 <= i < s.len() && #[trigger] pm_match(s[i], hash, count, now, expiry);
    assert(pm_match(s[j], hash, count, now, expiry));
}

fn find_part(parts: &Vec<Part>, i: u32) -> (r: Option<usize>)
    ensures
        r is None ==> !part_map(parts@).contains_key(i),
        r is Some ==> r->0 < parts@.len() && part_map(parts@).contains_key(i) && part_map(parts@)[i]
            == parts@[r->0 as int].payload@,
{
    let mut j: usize = parts.len();
    while j > 0
        invariant
            j <= parts@.len(),
            forall|k: int| j <= k < parts@.len() ==> parts@[k].index != i,
        decreases j,
    {
        if parts[j - 1].index == i {
            proof {
                lemma_part_map_last(parts@, i, j - 1);
            }
            return Some(j - 1);
        }
        j = j - 1;
    }
    proof {
        lemma_part_map_absent(parts@, i);
    }
    None
}

/// The parts of `count` indices below `count`, joined in index order, when all
/// are there.
fn assemble(parts: &Vec<Part>, count: u32) -> (r: Option<Vec<u8>>)
    ensures
        r is Some == complete(part_map(parts@), count),
        r is Some ==> r->0@ == joined(part_map(parts@), count as nat),
{
    let ghost m = part_map(parts@);
    let mut out: Vec<u8> = Vec::new();
    let mut i: u32 = 0;
    while i < count
        invariant
            i <= count,
            m == part_map(parts@),
            out@ == joined(m, i as nat),
            forall|k: u32| k < i ==> #[trigger] m.contains_key(k),
        decreases count - i,
    {
        match find_part(parts, i) {
            None => {
                return None;
            },
            Some(j) => {
                let p = &parts[j].payload;
                let mut k: usize = 0;
                let ghost start = out@;
                while k < p.len()
                    invariant
                        k <= p@.len(),
                        out@ == start + p@.subrange(0, k as int),
                    decreases p@.len() - k,
                {
                    out.push(p[k]);
                    k = k + 1;
                    assert(out@ =~= start + p@.subrange(0, k as int));
                }
                assert(p@.subrange(0, p@.len() as int) =~= p@);
                assert(joined(m, (i + 1) as nat) == joined(m, i as nat) + m[i]);
            },
        }
        i = i + 1;
    }
    Some(out)
}

/// Incomplete sets of parts, keyed by message fingerprint and part count.
pub struct UserMessageCache {
    entries: Vec<PartialMessage>,
    expiry: u64,
}

impl UserMessageCache {
    /// The cache's internal invariant: one entry per fingerprint and part count.
    pub closed spec fn wf(&self) -> bool {
        pm_unique(self.entries@)
    }

    /// How long an incomplete set is remembered after its last part.
    pub closed spec fn expiry(&self) -> u64 {
        self.expiry
    }

    /// The parts held for `(hash, count)` at time `now`, by index.
    pub closed spec fn parts(&self, hash: u64, count: u32, now: u64) -> Map<u32, Seq<u8>> {
        parts_in(self.entries@, hash, count, now, self.expiry)
    }

    /// An empty cache that forgets incomplete sets `expiry_secs` seconds after their last part.
    pub fn with_expiry_duration(expiry_secs: u64) -> (r: Self)
        ensures
            r.wf(),
            r.expiry() == expiry_secs,
            forall|h: u64, c: u32, t: u64| r.parts(h, c, t) == Map::<u32, Seq<u8>>::empty(),
    {
        UserMessageCache { entries: Vec::new(), expiry: expiry_secs }
    }

    /// What storing part `part_index` of `(hash, part_count)` with `payload`
    /// at `now` did, `prev` being the cache before and `r` the joined message
    /// handed back, if any.
    pub open spec fn stored(
        &self,
        prev: &UserMessageCache,
        hash: u64,
        part_count: u32,
        part_index: u32,
        payload: Seq<u8>,
        now: u64,
        r: Option<Seq<u8>>,
    ) -> bool {
        let m = prev.parts(hash, part_count, now).insert(part_index, payload);
        &&& self.wf()
        &&& self.expiry() == prev.expiry()
        &&& part_index >= part_count ==> r is None && *self == *prev
        &&& part_index < part_count ==> {
            &&& r is Some == complete(m, part_count)
            &&& r is Some ==> r->0 == joined(m, part_count as nat)
            &&& forall|t: u64|
                #![trigger self.parts(hash, part_count, t)]
                self.parts(hash, part_count, t) == if r is None && live(now, t, prev.expiry()) {
                    m
                } else {
                    Map::<u32, Seq<u8>>::empty()
                }
        }
    }

    /// Stores the part `part_index` of the message `(hash, part_count)` at time
    /// `now`. When this completes the set of indices below `part_count`, the set
    /// is removed and its payloads are handed back joined in index order. A part
    /// whose index is not below `part_count` is ignored. A repeated index
    /// replaces the earlier payload. Sets expired at `now` are evicted.
    pub fn add(&mut self, hash: u64, part_count: u32, part_index: u32, payload: Vec<u8>, now: u64) -> (r: Option<Vec<u8>>)
        requires
            old(self).wf(),
        ensures
            final(self).wf(),
            final(self).expiry() == old(self).expiry(),
            part_index >= part_count ==> r is None && *final(self) == *old(self),
            part_index < part_count ==> {
                let m = old(self).parts(hash, part_count, now).insert(part_index, payload@);
                &&& r is Some == complete(m, part_count)
                &&& r is Some ==> r->0@ == joined(m, part_count as nat)
                &&& forall|t: u64|
                    #![trigger final(self).parts(hash, part_count, t)]
                    final(self).parts(hash, part_count, t) == if r is None && live(now, t, old(self).expiry()) {
                        m
                    } else {
                        Map::<u32, Seq<u8>>::empty()
                    }
                &&& forall|h: u64, c: u32, t: u64|
                    #![trigger final(self).parts(h, c, t)]
                    (h, c) != (hash, part_count) && t >= now ==> final(self).parts(h, c, t) == old(self).parts(h, c, t)
            },
            final(self).stored(
                old(self),
                hash,
                part_count,
                part_index,
                payload@,
                now,
                if r is Some {
                    Some(r->0@)
                } else {
                    None
                },
            ),
    {
        if part_index >= part_count {
            return None;
        }
        let expiry = self.expiry;
        let mut rest: Vec<PartialMessage> = Vec::new();
        std::mem::swap(&mut self.entries, &mut rest);
        let ghost olds = rest@;
        let mut kept: Vec<PartialMessage> = Vec::new();
        let mut found: bool = false;
        let mut parts: Vec<Part> = Vec::new();
        while rest.len() > 0
            invariant
                self.expiry == expiry,
                pm_unique(olds),
                rest@.len() <= olds.len(),
                rest@ == olds.take(rest@.len() as int),
                pm_unique(kept@),
                forall|j: int| 0 <= j < kept@.len() ==> (kept@[j].hash, kept@[j].part_count) != (hash, part_count)
                    && live(kept@[j].stamp, now, expiry),
                forall|j: int| #![trigger kept@[j]] 0 <= j < kept@.len() ==> exists|x: int|
                    rest@.len() <= x < olds.len() && olds[x] == kept@[j],
                forall|x: int| #![trigger olds[x]] rest@.len() <= x < olds.len() && (olds[x].hash, olds[x].part_count)
                    != (hash, part_count) && live(olds[x].stamp, now, expiry)
                    ==> exists|j: int| 0 <= j < kept@.len() && kept@[j] == olds[x],
                found == exists|x: int| rest@.len() <= x < olds.len() && #[trigger] pm_match(olds[x], hash, part_count, now, expiry),
                found ==> exists|x: int| rest@.len() <= x < olds.len() && #[trigger] pm_match(olds[x], hash, part_count, now, expiry)
                    && olds[x].parts@ == parts@,
                !found ==> parts@ == Seq::<Part>::empty(),
            decreases rest@.len(),
        {
            let ghost n = rest@.len() as int - 1;
            let e = rest.pop().unwrap();
            assert(e == olds[n]);
            assert(rest@ =~= olds.take(n));
            if is_live(e.stamp, now, expiry) {
                if e.hash == hash && e.part_count == part_count {
                    found = true;
                    parts = e.parts;
                    assert(pm_match(olds[n], hash, part_count, now, expiry));
                } else {
                    let ghost before = kept@;
                    kept.push(e);
                    assert forall|a: int, b: int| 0 <= a < kept@.len() && 0 <= b < kept@.len() && a != b
                        implies (kept@[a].hash, kept@[a].part_count) != (kept@[b].hash, kept@[b].part_count) by {
                        if a == before.len() as int || b == before.len() as int {
                            let c = if a == before.len() as int { b } else { a };
                            let x = choose|x: int| n < x < olds.len() && olds[x] == kept@[c];
                            assert(x != n);
                        }
                    }
                    assert forall|x: int| #![trigger olds[x]] n <= x < olds.len() && (olds[x].hash, olds[x].part_count)
                        != (hash, part_count) && live(olds[x].stamp, now, expiry) implies exists|j: int|
                        0 <= j < kept@.len() && kept@[j] == olds[x] by {
                        if x > n {
                            let j = choose|j: int| 0 <= j < before.len() && before[j] == olds[x];
                            assert(kept@[j] == before[j]);
                        } else {
                            assert(kept@[before.len() as int] == olds[x]);
                        }
                    }
                    assert forall|j: int| #![trigger kept@[j]] 0 <= j < kept@.len() implies exists|x: int|
                        n <= x < olds.len() && olds[x] == kept@[j] by {
                        if j < before.len() {
                            assert(kept@[j] == before[j]);
                            assert(before[j] == before[j]);
                        }
                    }
                }
            }
        }
        let ghost oldm = parts_in(olds, hash, part_count, now, expiry);
        if found {
            let ghost x = choose|x: int| 0 <= x < olds.len() && #[trigger] pm_match(olds[x], hash, part_count, now, expiry)
                && olds[x].parts@ == parts@;
            proof {
                lemma_parts_at(olds, hash, part_count, now, expiry, x);
            }
        } else {
            assert(part_map(parts@) =~= Map::<u32, Seq<u8>>::empty());
        }
        assert(oldm == part_map(parts@));
        let ghost pv = payload@;
        let ghost before_parts = parts@;
        parts.push(Part { index: part_index, payload });
        assert(parts@.drop_last() == before_parts);
        assert(part_map(parts@) == oldm.insert(part_index, pv));
        let result = assemble(&parts, part_count);
        let ghost before = kept@;
        let ghost last = before.len() as int;
        if result.is_none() {
            kept.push(PartialMessage { hash, part_count, parts, stamp: now });
        }
        let ghost news = kept@;
        assert(pm_unique(news)) by {
            assert forall|a: int, b: int| 0 <= a < news.len() && 0 <= b < news.len() && a != b
                implies (news[a].hash, news[a].part_count) != (news[b].hash, news[b].part_count) by {
                if a != last && b != last {
                    assert(news[a] == before[a] && news[b] == before[b]);
                } else if a == last {
                    assert(news[b] == before[b]);
                } else {
                    assert(news[a] == before[a]);
                }
            }
        }
        assert forall|t: u64| #![auto] parts_in(news, hash, part_count, t, expiry) == if result is None && live(now, t, expiry) {
            oldm.insert(part_index, pv)
        } else {
            Map::<u32, Seq<u8>>::empty()
        } by {
            if result is None && live(now, t, expiry) {
                assert(pm_match(news[last], hash, part_count, t, expiry));
                lemma_parts_at(news, hash, part_count, t, expiry, last);
            } else {
                assert forall|y: int| 0 <= y < news.len() implies !#[trigger] pm_match(news[y], hash, part_count, t, expiry) by {
                    if y != last || result is Some {
                        assert(news[y] == before[y]);
                    }
                }
            }
        }
        assert forall|h: u64, c: u32, t: u64| #![auto] (h, c) != (hash, part_count) && t >= now implies parts_in(news, h, c, t, expiry)
            == parts_in(olds, h, c, t, expiry) by {
            if exists|x: int| 0 <= x < olds.len() && #[trigger] pm_match(olds[x], h, c, t, expiry) {
                let x = choose|x: int| 0 <= x < olds.len() && #[trigger] pm_match(olds[x], h, c, t, expiry);
                assert(live(olds[x].stamp, now, expiry));
                assert(olds[x] == olds[x]);
                let j = choose|j: int| 0 <= j < before.len() && before[j] == olds[x];
                assert(news[j] == before[j]);
                assert(pm_match(news[j], h, c, t, expiry));
                lemma_parts_at(news, h, c, t, expiry, j);
                lemma_parts_at(olds, h, c, t, expiry, x);
            } else {
                assert forall|y: int| 0 <= y < news.len() implies !#[trigger] pm_match(news[y], h, c, t, expiry) by {
                    if y != last || result is Some {
                        assert(news[y] == before[y]);
                        assert(before[y] == before[y]);
                        if pm_match(news[y], h, c, t, expiry) {
                            let x = choose|x: int| 0 <= x < olds.len() && olds[x] == before[y];
                            assert(pm_match(olds[x], h, c, t, expiry));
                        }
                    }
                }
            }
        }
        self.entries = kept;
        result
    }
}

/// Whether `parts` holds, at each index below the part count, the part that
/// splitting `payload` into parts of `max` bytes gives.
pub open spec fn holds_parts_of(parts: Map<u32, Seq<u8>>, payload: Seq<u8>, max: nat) -> bool {
    forall|i: u32|
        #![trigger parts[i]]
        #![trigger parts.contains_key(i)]
        (i as nat) < part_count_for(payload.len(), max) ==> parts.contains_key(i) && parts[i] == part_payload(
            payload,
            max,
            i as nat,
        )
}

proof fn lemma_joined_prefix(payload: Seq<u8>, max: nat, parts: Map<u32, Seq<u8>>, k: nat)
    requires
        max > 0,
        k <= part_count_for(payload.len(), max),
        part_count_for(payload.len(), max) <= u32::MAX,
        holds_parts_of(parts, payload, max),
    ensures
        joined(parts, k) == payload.subrange(0, if k * max <= payload.len() { (k * max) as int } else { payload.len() as int }),
    decreases k,
{
    if k > 0 {
        let j = (k - 1) as nat;
        lemma_joined_prefix(payload, max, parts, j);
        assert(j * max <= payload.len()) by (nonlinear_arith)
            requires
                j < part_count_for(payload.len(), max),
                max > 0,
        {
        }
        assert((j + 1) * max == j * max + max) by (nonlinear_arith);
        assert(parts[j as u32] == part_payload(payload, max, j));
        let end = if (j + 1) * max <= payload.len() { (j + 1) * max } else { payload.len() as nat };
        assert(payload.subrange(0, (j * max) as int) + payload.subrange((j * max) as int, end as int)
            =~= payload.subrange(0, end as int));
        assert(joined(parts, k) == joined(parts, j) + parts[j as u32]);
        assert(k * max == (j + 1) * max);
    } else {
        assert(payload.subrange(0, 0) =~= Seq::<u8>::empty());
    }
}

/// Joining, in index order, the parts that splitting a payload into parts of
/// `max` bytes gives yields the payload again, whatever order the parts were
/// stored in.
pub proof fn lemma_parts_rejoin(payload: Seq<u8>, max: nat, parts: Map<u32, Seq<u8>>)
    requires
        max > 0,
        part_count_for(payload.len(), max) <= u32::MAX,
        holds_parts_of(parts, payload, max),
    ensures
        complete(parts, part_count_for(payload.len(), max) as u32),
        joined(parts, part_count_for(payload.len(), max)) == payload,
{
    let n = part_count_for(payload.len(), max);
    lemma_joined_prefix(payload, max, parts, n);
    assert(n * max >= payload.len()) by (nonlinear_arith)
        requires
            n == part_count_for(payload.len(), max),
            max > 0,
    {
    }
    assert(payload.subrange(0, payload.len() as int) =~= payload);
    assert forall|i: u32| i < n as u32 implies #[trigger] parts.contains_key(i) by {
        assert(parts[i] == part_payload(payload, max, i as nat));
    }
}

/// The parts held after storing, in order, part `indices[i]` with
/// `payloads[i]` for each `i` below `k`, starting from none.
pub open spec fn parts_after(indices: Seq<u32>, payloads: Seq<Seq<u8>>, k: nat) -> Map<u32, Seq<u8>>
    decreases k,
{
    if k == 0 {
        Map::empty()
    } else {
        parts_after(indices, payloads, (k - 1) as nat).insert(indices[k - 1], payloads[k - 1])
    }
}

proof fn lemma_reassembly_prefix(
    caches: Seq<UserMessageCache>,
    times: Seq<u64>,
    indices: Seq<u32>,
    payloads: Seq<Seq<u8>>,
    rs: Seq<Option<Seq<u8>>>,
    hash: u64,
    count: u32,
    k: int,
)
    requires
        caches.len() == times.len() + 1,
        indices.len() == times.len(),
        payloads.len() == times.len(),
        rs.len() == times.len(),
        0 <= k < times.len(),
        caches[0].parts(hash, count, times[0]) == Map::<u32, Seq<u8>>::empty(),
        forall|i: int| 0 <= i < times.len() ==> (#[trigger] indices[i]) < count,
        forall|i: int| 0 <= i < times.len() - 1 ==> (#[trigger] rs[i]) is None,
        forall|i: int|
            0 <= i < times.len() ==> #[trigger] caches[i + 1].stored(
                &caches[i],
                hash,
                count,
                indices[i],
                payloads[i],
                times[i],
                rs[i],
            ),
        forall|i: int| 0 <= i < times.len() - 1 ==> #[trigger] times[i] <= times[i + 1],
        forall|i: int| 0 <= i < times.len() ==> (#[trigger] times[i]) < times[0] + caches[0].expiry(),
    ensures
        caches[k].parts(hash, count, times[k]) == parts_after(indices, payloads, k as nat),
        caches[k].expiry() == caches[0].expiry(),
        times[0] <= times[k],
    decreases k,
{
    if k > 0 {
        let j = k - 1;
        lemma_reassembly_prefix(caches, times, indices, payloads, rs, hash, count, j);
        assert(caches[j + 1].stored(&caches[j], hash, count, indices[j], payloads[j], times[j], rs[j]));
        assert(indices[j] < count);
        assert(rs[j] is None);
        assert(times[j] <= times[k]);
        assert(times[k] < times[0] + caches[0].expiry());
        assert(live(times[j], times[k], caches[j].expiry()));
    }
}

/// Storing parts of one message, with indices below its part count, at
/// non-decreasing times within the window of the first part and starting
/// from none: each call hands the message back exactly when the indices
/// stored so far cover every index below the part count, and then it is the
/// payloads joined in index order, each index counted once whatever the
/// arrival order and however often it came.
pub proof fn lemma_reassembly_chain(
    caches: Seq<UserMessageCache>,
    times: Seq<u64>,
    indices: Seq<u32>,
    payloads: Seq<Seq<u8>>,
    rs: Seq<Option<Seq<u8>>>,
    hash: u64,
    count: u32,
)
    requires
        caches.len() == times.len() + 1,
        indices.len() == times.len(),
        payloads.len() == times.len(),
        rs.len() == times.len(),
        times.len() > 0 ==> caches[0].parts(hash, count, times[0]) == Map::<u32, Seq<u8>>::empty(),
        forall|i: int| 0 <= i < times.len() ==> (#[trigger] indices[i]) < count,
        forall|i: int| 0 <= i < times.len() - 1 ==> (#[trigger] rs[i]) is None,
        forall|i: int|
            0 <= i < times.len() ==> #[trigger] caches[i + 1].stored(
                &caches[i],
                hash,
                count,
                indices[i],
                payloads[i],
                times[i],
                rs[i],
            ),
        forall|i: int| 0 <= i < times.len() - 1 ==> #[trigger] times[i] <= times[i + 1],
        forall|i: int| 0 <= i < times.len() ==> (#[trigger] times[i]) < times[0] + caches[0].expiry(),
    ensures
        forall|i: int|
            0 <= i < times.len() ==> {
                &&& (#[trigger] rs[i]) is Some == complete(parts_after(indices, payloads, (i + 1) as nat), count)
                &&& rs[i] is Some ==> rs[i]->0 == joined(parts_after(indices, payloads, (i + 1) as nat), count as nat)
            },
{
    assert forall|i: int| 0 <= i < times.len() implies {
        &&& (#[trigger] rs[i]) is Some == complete(parts_after(indices, payloads, (i + 1) as nat), count)
        &&& rs[i] is Some ==> rs[i]->0 == joined(parts_after(indices, payloads, (i + 1) as nat), count as nat)
    } by {
        lemma_reassembly_prefix(caches, times, indices, payloads, rs, hash, count, i);
        assert(caches[i + 1].stored(&caches[i], hash, count, indices[i], payloads[i], times[i], rs[i]));
        assert(indices[i] < count);
    }
}

} // verus!
