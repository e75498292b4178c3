//! The challenge registry: what is known of each issued challenge (verified
//! yet, how many failed guesses, when it was issued), and a timing wheel that
//! reclaims expired entries a few at a time as the clock advances.
use vstd::prelude::*;
use crate::crypto::now_secs;
use vstd::arithmetic::div_mod::{lemma_add_mod_noop, lemma_fundamental_div_mod_converse};

verus! {

#[verifier::external_type_specification]
#[verifier::external_body]
#[verifier::reject_recursive_types(K)]
#[verifier::reject_recursive_types(V)]
#[verifier::reject_recursive_types(S)]
pub struct ExDashMap<K, V, S>(dashmap::DashMap<K, V, S>);

/// The outcome of a registry check.
#[derive(PartialEq, Eq, Structural, Debug, Clone, Copy)]
pub enum RegistryCheckResult {
    Valid,
    AlreadyVerified,
    NotRegistered,
    MaxAttemptsLimitExceeded,
}

impl RegistryCheckResult {
    /// The outcome's name in capitals, as reports show it.
    pub fn label(&self) -> (r: &'static str)
        ensures
            r@ == match self {
                RegistryCheckResult::Valid => "VALID"@,
                RegistryCheckResult::AlreadyVerified => "ALREADYVERIFIED"@,
                RegistryCheckResult::NotRegistered => "NOTREGISTERED"@,
                RegistryCheckResult::MaxAttemptsLimitExceeded => "MAXATTEMPTSLIMITEXCEEDED"@,
            },
    {
        match self {
            RegistryCheckResult::Valid => "VALID",
            RegistryCheckResult::AlreadyVerified => "ALREADYVERIFIED",
            RegistryCheckResult::NotRegistered => "NOTREGISTERED",
            RegistryCheckResult::MaxAttemptsLimitExceeded => "MAXATTEMPTSLIMITEXCEEDED",
        }
    }
}

/// The lifecycle record of one challenge.
#[derive(PartialEq, Eq, Structural, Debug, Clone, Copy)]
pub struct ChallengeStatus {
    pub verified: bool,
    pub attempts_count: u16,
    pub timestamp: u64,
}

/// The entries that a status map holds, by challenge id.
pub uninterp spec fn status_entries(m: dashmap::DashMap<String, ChallengeStatus>) -> Map<Seq<char>, ChallengeStatus>;

/// Relies on dashmap's `DashMap::new`: an empty map.
#[verifier::external_body]
fn status_map_new() -> (r: dashmap::DashMap<String, ChallengeStatus>)
    ensures
        status_entries(r) == no_records(),
{
    dashmap::DashMap::new()
}

/// Relies on dashmap's `DashMap::get`: the value stored under `id`, if any
/// (keys compare as `String`s, by their characters).
#[verifier::external_body]
fn status_map_get(m: &dashmap::DashMap<String, ChallengeStatus>, id: &str) -> (r: Option<ChallengeStatus>)
    ensures
        r is Some <==> status_entries(*m).contains_key(id@),
        r is Some ==> r->0 == status_entries(*m)[id@],
{
    m.get(id).map(|entry| *entry.value())
}

/// Relies on dashmap's `DashMap::insert`: afterwards `id` maps to `status`,
/// replacing what it held; other entries stay.
#[verifier::external_body]
fn status_map_insert(m: &mut dashmap::DashMap<String, ChallengeStatus>, id: &str, status: ChallengeStatus)
    ensures
        status_entries(*final(m)) == status_entries(*old(m)).insert(id@, status),
{
    m.insert(id.to_string(), status);
}

/// Relies on dashmap's `DashMap::remove`: afterwards `id` has no entry; other
/// entries stay.
#[verifier::external_body]
fn status_map_remove(m: &mut dashmap::DashMap<String, ChallengeStatus>, id: &str)
    ensures
        status_entries(*final(m)) == status_entries(*old(m)).remove(id@),
{
    m.remove(id);
}

/// The records of an empty registry.
pub open spec fn no_records() -> Map<Seq<char>, ChallengeStatus> {
    Map::empty()
}

/// The record of `id` in `m`, if any.
pub open spec fn record_of(m: Map<Seq<char>, ChallengeStatus>, id: Seq<char>) -> Option<ChallengeStatus> {
    if m.contains_key(id) {
        Some(m[id])
    } else {
        None
    }
}

/// The record that registering at `now` creates.
pub open spec fn fresh_status(now: u64) -> ChallengeStatus {
    ChallengeStatus { verified: false, attempts_count: 0, timestamp: now }
}

/// Whether a record has lived out `ttl` seconds at clock reading `now`.
pub open spec fn is_expired(status: ChallengeStatus, now: u64, ttl: u64) -> bool {
    now.saturating_sub(status.timestamp) >= ttl
}

/// Whether `after` is `before` with some expired entries reclaimed: it keeps
/// every entry that has not expired, and holds nothing that `before` did not.
pub open spec fn swept(
    before: Map<Seq<char>, ChallengeStatus>,
    after: Map<Seq<char>, ChallengeStatus>,
    now: u64,
    ttl: u64,
) -> bool {
    &&& forall|k: Seq<char>| #[trigger]
        after.contains_key(k) ==> before.contains_key(k) && after[k] == before[k]
    &&& forall|k: Seq<char>| #[trigger]
        before.contains_key(k) && !is_expired(before[k], now, ttl) ==> after.contains_key(k)
}

/// What a check reports for a record found (or not) at clock reading `now`.
pub open spec fn check_outcome(
    record: Option<ChallengeStatus>,
    now: u64,
    ttl: u64,
    max_attempts: u16,
) -> RegistryCheckResult {
    match record {
        None => RegistryCheckResult::NotRegistered,
        Some(st) => if st.verified {
            RegistryCheckResult::AlreadyVerified
        } else if st.attempts_count >= max_attempts {
            RegistryCheckResult::MaxAttemptsLimitExceeded
        } else if now.saturating_sub(st.timestamp) <= ttl {
            RegistryCheckResult::Valid
        } else {
            RegistryCheckResult::NotRegistered
        },
    }
}

/// The records after marking `id` verified.
pub open spec fn mark_verified(m: Map<Seq<char>, ChallengeStatus>, id: Seq<char>) -> Map<Seq<char>, ChallengeStatus> {
    if m.contains_key(id) {
        m.insert(id, ChallengeStatus { verified: true, ..m[id] })
    } else {
        m
    }
}

/// The records after noting a guess on `id`: a failed one adds one attempt,
/// saturating.
pub open spec fn note_guess(m: Map<Seq<char>, ChallengeStatus>, id: Seq<char>, success: bool) -> Map<Seq<char>, ChallengeStatus> {
    if m.contains_key(id) && !success {
        m.insert(id, ChallengeStatus { attempts_count: m[id].attempts_count.saturating_add(1), ..m[id] })
    } else {
        m
    }
}

/// A registry of issued challenges.
pub trait ChallengeRegistry {
    /// The record of each registered id.
    spec fn records(&self) -> Map<Seq<char>, ChallengeStatus>;

    /// How many seconds a record stays valid.
    spec fn ttl(&self) -> u64;

    /// How many failed guesses a challenge takes before it is refused.
    spec fn max_attempts(&self) -> u16;

    /// Whether the registry's internal state is consistent.
    spec fn wf(&self) -> bool;

    /// Records `id` as new, issued now.
    fn register(&mut self, id: &str)
        requires
            old(self).wf(),
        ensures
            final(self).wf(),
            final(self).ttl() == old(self).ttl(),
            final(self).max_attempts() == old(self).max_attempts(),
            exists|now: u64|
                final(self).records().contains_key(id@) && final(self).records()[id@]
                    == fresh_status(now) && swept(
                    old(self).records().remove(id@),
                    final(self).records().remove(id@),
                    now,
                    old(self).ttl(),
                ),
    ;

    /// Reports whether `id` may still be answered.
    fn check(&mut self, id: &str) -> (r: RegistryCheckResult)
        requires
            old(self).wf(),
        ensures
            final(self).wf(),
            final(self).ttl() == old(self).ttl(),
            final(self).max_attempts() == old(self).max_attempts(),
            exists|now: u64|
                swept(old(self).records(), final(self).records(), now, old(self).ttl()) && r
                    == check_outcome(
                    record_of(final(self).records(), id@),
                    now,
                    old(self).ttl(),
                    old(self).max_attempts(),
                ),
    ;

    /// Marks `id` as answered; nothing happens to an unknown id.
    fn verify(&mut self, id: &str)
        requires
            old(self).wf(),
        ensures
            final(self).wf(),
            final(self).ttl() == old(self).ttl(),
            final(self).max_attempts() == old(self).max_attempts(),
            final(self).records() == mark_verified(old(self).records(), id@),
    ;

    /// Counts a failed guess on `id`; a successful one changes nothing.
    fn note_attempt(&mut self, id: &str, success: bool)
        requires
            old(self).wf(),
        ensures
            final(self).wf(),
            final(self).ttl() == old(self).ttl(),
            final(self).max_attempts() == old(self).max_attempts(),
            final(self).records() == note_guess(old(self).records(), id@, success),
    ;
}

/// Buckets of ids by the second at which they expire, and a cursor that
/// follows the clock.
struct Wheel {
    buckets: Vec<Vec<String>>,
    pos: usize,
    last_tick: u64,
    len: usize,
}

impl Wheel {
    spec fn wf(&self) -> bool {
        &&& self.len >= 1
        &&& self.buckets@.len() == self.len
        &&& self.pos < self.len
    }
}

/// A registry held in memory, with a timing wheel of `max(ttl, 1)` buckets.
pub struct ChallengeInMemoryRegistry {
    cache: dashmap::DashMap<String, ChallengeStatus>,
    max_attempts: u16,
    ttl: u64,
    wheel: Wheel,
}

/// The place of slot `i` counted from the cursor `p` on a ring of `n` slots:
/// 1 for the slot after the cursor, `n` for the cursor's own slot.
pub open spec fn ring_offset(i: int, p: int, n: int) -> int {
    if i > p {
        i - p
    } else if i < p {
        i - p + n
    } else {
        n
    }
}

/// How many buckets an advance to `now` drains: none unless the clock has
/// moved past the last tick, else one per elapsed second, at most one turn.
pub open spec fn advance_steps(r: ChallengeInMemoryRegistry, now: u64) -> int {
    if now <= r.last_tick() {
        0
    } else if now - r.last_tick() < r.bucket_count() {
        now - r.last_tick()
    } else {
        r.bucket_count()
    }
}

/// Whether `k` is filed in one of the first `steps` buckets after the cursor.
pub open spec fn drained_within(r: ChallengeInMemoryRegistry, steps: int, k: Seq<char>) -> bool {
    exists|i: int|
        0 <= i < r.bucket_count() && ring_offset(i, r.cursor(), r.bucket_count()) <= steps
            && #[trigger] r.bucket(i).contains(k)
}

/// Whether `after` is `before` with its wheel advanced to `now`: the cursor
/// moves over `advance_steps` buckets, which are emptied; of the ids filed
/// there, exactly those whose records have expired lose their records; the
/// last tick becomes `now` if the clock moved forward. Nothing else changes.
pub open spec fn advanced(before: ChallengeInMemoryRegistry, after: ChallengeInMemoryRegistry, now: u64) -> bool {
    let steps = advance_steps(before, now);
    let n = before.bucket_count();
    &&& after.wf()
    &&& after.ttl() == before.ttl()
    &&& after.max_attempts() == before.max_attempts()
    &&& after.bucket_count() == n
    &&& after.last_tick() == if now <= before.last_tick() { before.last_tick() } else { now }
    &&& steps == 0 ==> after.cursor() == before.cursor()
    &&& steps > 0 ==> ring_offset(after.cursor(), before.cursor(), n) == steps
    &&& forall|i: int|
        0 <= i < n ==> #[trigger] after.bucket(i) == if ring_offset(i, before.cursor(), n) <= steps {
            Seq::<Seq<char>>::empty()
        } else {
            before.bucket(i)
        }
    &&& forall|k: Seq<char>| #[trigger]
        after.records().contains_key(k) <==> before.records().contains_key(k) && !(drained_within(
            before,
            steps,
            k,
        ) && is_expired(before.records()[k], now, before.ttl()))
    &&& forall|k: Seq<char>| #[trigger]
        after.records().contains_key(k) ==> after.records()[k] == before.records()[k]
}

/// The bucket that an id registered at `now` is filed in.
pub open spec fn expiry_slot(r: ChallengeInMemoryRegistry, now: u64) -> int {
    (now as int + r.ttl() as int) % r.bucket_count()
}

/// Whether `after` is `mid` with `id` registered at `now`: a fresh record,
/// and `id` appended to the bucket of the second `now + ttl`.
pub open spec fn filed(mid: ChallengeInMemoryRegistry, after: ChallengeInMemoryRegistry, id: Seq<char>, now: u64) -> bool {
    &&& after.wf()
    &&& after.ttl() == mid.ttl()
    &&& after.max_attempts() == mid.max_attempts()
    &&& after.bucket_count() == mid.bucket_count()
    &&& after.cursor() == mid.cursor()
    &&& after.last_tick() == mid.last_tick()
    &&& after.records() == mid.records().insert(id, fresh_status(now))
    &&& forall|i: int|
        0 <= i < mid.bucket_count() ==> #[trigger] after.bucket(i) == if i == expiry_slot(mid, now) {
            mid.bucket(i).push(id)
        } else {
            mid.bucket(i)
        }
}

/// An advance only reclaims expired records.
pub proof fn lemma_advanced_swept(before: ChallengeInMemoryRegistry, after: ChallengeInMemoryRegistry, now: u64)
    requires
        advanced(before, after, now),
    ensures
        swept(before.records(), after.records(), now, before.ttl()),
{
}

proof fn lemma_ring_step(p: int, n: int, t: int, q: int)
    requires
        0 <= p < n,
        0 <= t < n,
        ring_offset(q, p, n) == t || (t == 0 && q == p),
        0 <= q < n,
    ensures
        ring_offset(if q + 1 == n { 0 } else { q + 1 }, p, n) == t + 1,
        forall|i: int| 0 <= i < n && ring_offset(i, p, n) == t + 1 ==> i == (if q + 1 == n { 0 } else { q + 1 }),
{
}

impl ChallengeInMemoryRegistry {
    /// How many buckets the wheel has.
    pub closed spec fn bucket_count(&self) -> int {
        self.wheel.len as int
    }

    /// The wheel's cursor.
    pub closed spec fn cursor(&self) -> int {
        self.wheel.pos as int
    }

    /// The clock reading the wheel last advanced to.
    pub closed spec fn last_tick(&self) -> u64 {
        self.wheel.last_tick
    }

    /// The ids filed in bucket `i`.
    pub closed spec fn bucket(&self, i: int) -> Seq<Seq<char>> {
        self.wheel.buckets@[i]@.map_values(|id: String| id@)
    }

    /// An empty registry whose records live `ttl` seconds and take at most
    /// `max_attempts` failed guesses. Its wheel has `max(ttl, 1)` empty
    /// buckets, and its cursor stands at the current second modulo that.
    pub fn new(ttl: u64, max_attempts: u16) -> (r: Self)
        requires
            ttl <= usize::MAX,
        ensures
            r.wf(),
            r.records() == no_records(),
            r.ttl() == ttl,
            r.max_attempts() == max_attempts,
            r.bucket_count() == if ttl == 0 { 1 } else { ttl as int },
            r.cursor() == r.last_tick() as int % r.bucket_count(),
            forall|i: int| 0 <= i < r.bucket_count() ==> #[trigger] r.bucket(i).len() == 0,
    {
        let now = now_secs();
        let len: usize = if ttl == 0 { 1 } else { ttl as usize };
        let mut buckets: Vec<Vec<String>> = Vec::new();
        let mut i: usize = 0;
        while i < len
            invariant
                i <= len,
                buckets@.len() == i,
                forall|k: int| 0 <= k < i ==> (#[trigger] buckets@[k])@.len() == 0,
            decreases len - i,
        {
            buckets.push(Vec::new());
            i = i + 1;
        }
        let pos = (now % (len as u64)) as usize;
        let wheel = Wheel { buckets, pos, last_tick: now, len };
        ChallengeInMemoryRegistry { cache: status_map_new(), max_attempts, ttl, wheel }
    }

    /// Moves the wheel's cursor up to `now`, one bucket per elapsed second and
    /// at most one full turn, and drops the expired records of the ids filed
    /// in the buckets it passes.
    fn advance_wheel(&mut self, now: u64)
        requires
            old(self).wf(),
        ensures
            advanced(*old(self), *final(self), now),
    {
        let ghost w0 = *self;
        let ghost n = self.wheel.len as int;
        let ghost p0 = self.wheel.pos as int;
        if now <= self.wheel.last_tick {
            assert forall|k: Seq<char>| !drained_within(w0, 0, k) by {}
            return;
        }
        let elapsed = now - self.wheel.last_tick;
        let steps: usize = if elapsed < self.wheel.len as u64 { elapsed as usize } else { self.wheel.len };
        assert(steps as int == advance_steps(w0, now));
        let mut s: usize = 0;
        while s < steps
            invariant
                self.wf(),
                self.ttl == w0.ttl,
                self.max_attempts == w0.max_attempts,
                self.wheel.len == w0.wheel.len,
                self.wheel.last_tick == w0.wheel.last_tick,
                n == self.wheel.len,
                p0 == w0.wheel.pos,
                w0.wf(),
                0 <= s <= steps <= n,
                s == 0 ==> self.wheel.pos == p0,
                s > 0 ==> ring_offset(self.wheel.pos as int, p0, n) == s,
                forall|i: int|
                    0 <= i < n ==> #[trigger] self.bucket(i) == if ring_offset(i, p0, n) <= s {
                        Seq::<Seq<char>>::empty()
                    } else {
                        w0.bucket(i)
                    },
                forall|k: Seq<char>| #[trigger]
                    self.records().contains_key(k) <==> w0.records().contains_key(k) && !(drained_within(
                        w0,
                        s as int,
                        k,
                    ) && is_expired(w0.records()[k], now, w0.ttl)),
                forall|k: Seq<char>| #[trigger]
                    self.records().contains_key(k) ==> self.records()[k] == w0.records()[k],
            decreases steps - s,
        {
            let ghost q0 = self.wheel.pos as int;
            let ghost top = *self;
            proof {
                lemma_ring_step(p0, n, s as int, q0);
            }
            self.wheel.pos = if self.wheel.pos + 1 == self.wheel.len { 0 } else { self.wheel.pos + 1 };
            let pos = self.wheel.pos;
            let ghost q = pos as int;
            assert(ring_offset(q, p0, n) == s + 1);
            let ghost pre_swap = *self;
            assert(self.cache == top.cache);
            assert(self.wheel.buckets == top.wheel.buckets);
            assert(top.bucket(q) == w0.bucket(q));
            assert(self.bucket(q) == w0.bucket(q));
            let mut expired_ids: Vec<String> = Vec::new();
            self.wheel.buckets.set_and_swap(pos, &mut expired_ids);
            let ghost taken = expired_ids@.map_values(|id: String| id@);
            assert(taken == pre_swap.bucket(q));
            assert(taken == w0.bucket(q));
            proof {
                assert forall|i: int| 0 <= i < n implies #[trigger] self.bucket(i) == if ring_offset(i, p0, n) <= s + 1 {
                    Seq::<Seq<char>>::empty()
                } else {
                    w0.bucket(i)
                } by {
                    if i == q {
                        assert(self.bucket(i) =~= Seq::<Seq<char>>::empty());
                    } else {
                        assert(self.wheel.buckets@[i] == pre_swap.wheel.buckets@[i]);
                        assert(self.bucket(i) == pre_swap.bucket(i));
                        assert(pre_swap.bucket(i) == top.bucket(i));
                        if ring_offset(i, p0, n) == s + 1 {
                            assert(i == q);
                        }
                    }
                }
                assert forall|k: Seq<char>| !taken.subrange(0, 0).contains(k) by {}
            }
            let ghost wheel_mid = self.wheel;
            let ghost after_swap = *self;
            assert(self.records() == top.records());
            let mut j: usize = 0;
            while j < expired_ids.len()
                invariant
                    self.wf(),
                    self.ttl == w0.ttl,
                    self.max_attempts == w0.max_attempts,
                    self.wheel == wheel_mid,
                    w0.wf(),
                    taken == expired_ids@.map_values(|id: String| id@),
                    j <= expired_ids@.len(),
                    forall|k: Seq<char>| #[trigger]
                        self.records().contains_key(k) <==> w0.records().contains_key(k) && !((
                        drained_within(w0, s as int, k) || taken.subrange(0, j as int).contains(k))
                            && is_expired(w0.records()[k], now, w0.ttl)),
                    forall|k: Seq<char>| #[trigger]
                        self.records().contains_key(k) ==> self.records()[k] == w0.records()[k],
                decreases expired_ids@.len() - j,
            {
                let id = expired_ids[j].as_str();
                let ghost inner_top = *self;
                proof {
                    assert(taken[j as int] == id@);
                    assert forall|k: Seq<char>|
                        taken.subrange(0, j + 1).contains(k) <==> (taken.subrange(0, j as int).contains(k)
                            || k == id@) by {
                        if taken.subrange(0, j + 1).contains(k) {
                            let m = choose|m: int| 0 <= m < j + 1 && #[trigger] taken.subrange(0, j + 1)[m] == k;
                            if m < j {
                                assert(taken.subrange(0, j as int)[m] == k);
                            }
                        }
                        if taken.subrange(0, j as int).contains(k) {
                            let m = choose|m: int| 0 <= m < j && #[trigger] taken.subrange(0, j as int)[m] == k;
                            assert(taken.subrange(0, j + 1)[m] == k);
                        }
                        if k == id@ {
                            assert(taken.subrange(0, j + 1)[j as int] == k);
                        }
                    }
                }
                match status_map_get(&self.cache, id) {
                    Some(st) => {
                        if now.saturating_sub(st.timestamp) >= self.ttl {
                            status_map_remove(&mut self.cache, id);
                        }
                    },
                    None => {},
                }
                proof {
                    assert forall|k: Seq<char>| #[trigger] self.records().contains_key(k) <==> w0.records().contains_key(k)
                        && !((drained_within(w0, s as int, k) || taken.subrange(0, j + 1).contains(k))
                        && is_expired(w0.records()[k], now, w0.ttl)) by {
                        assert(inner_top.records().contains_key(k) <==> w0.records().contains_key(k)
                            && !((drained_within(w0, s as int, k) || taken.subrange(0, j as int).contains(k))
                            && is_expired(w0.records()[k], now, w0.ttl)));
                        if inner_top.records().contains_key(k) {
                            assert(inner_top.records()[k] == w0.records()[k]);
                        }
                    }
                    assert forall|k: Seq<char>| #[trigger] self.records().contains_key(k) implies self.records()[k]
                        == w0.records()[k] by {
                        assert(inner_top.records().contains_key(k));
                        assert(inner_top.records()[k] == w0.records()[k]);
                    }
                }
                j = j + 1;
            }
            proof {
                assert(taken.subrange(0, expired_ids@.len() as int) =~= taken);
                assert forall|k: Seq<char>|
                    drained_within(w0, s + 1, k) <==> (drained_within(w0, s as int, k) || taken.contains(k)) by {
                    if drained_within(w0, s + 1, k) {
                        let i = choose|i: int|
                            0 <= i < w0.bucket_count() && ring_offset(i, w0.cursor(), w0.bucket_count()) <= s + 1
                                && #[trigger] w0.bucket(i).contains(k);
                        if ring_offset(i, p0, n) == s + 1 {
                            assert(i == q);
                        }
                    }
                    if taken.contains(k) {
                        assert(w0.bucket(q).contains(k));
                    }
                }
            }
            assert forall|i: int| 0 <= i < n implies #[trigger] self.bucket(i) == if ring_offset(i, p0, n) <= s + 1 {
                Seq::<Seq<char>>::empty()
            } else {
                w0.bucket(i)
            } by {
                assert(self.bucket(i) == after_swap.bucket(i));
            }
            s = s + 1;
        }
        let ghost looped = *self;
        self.wheel.last_tick = now;
        proof {
            assert forall|i: int| 0 <= i < n implies #[trigger] self.bucket(i) == if ring_offset(i, w0.cursor(), n) <= steps {
                Seq::<Seq<char>>::empty()
            } else {
                w0.bucket(i)
            } by {
                assert(self.bucket(i) == looped.bucket(i));
            }
            assert(self.records() == looped.records());
        }
    }

    /// Files `id` in the bucket of the second `now + ttl`.
    fn schedule_expiry(&mut self, id: &str, now: u64)
        requires
            old(self).wf(),
        ensures
            final(self).wf(),
            final(self).ttl == old(self).ttl,
            final(self).max_attempts == old(self).max_attempts,
            final(self).cache == old(self).cache,
            final(self).wheel.len == old(self).wheel.len,
            final(self).wheel.pos == old(self).wheel.pos,
            final(self).wheel.last_tick == old(self).wheel.last_tick,
            forall|i: int|
                0 <= i < old(self).bucket_count() ==> #[trigger] final(self).bucket(i) == if i
                    == expiry_slot(*old(self), now) {
                    old(self).bucket(i).push(id@)
                } else {
                    old(self).bucket(i)
                },
    {
        let len = self.wheel.len as u64;
        let a = now % len;
        let b = self.ttl % len;
        let target = (if a >= len - b { a - (len - b) } else { a + b }) as usize;
        proof {
            lemma_add_mod_noop(now as int, self.ttl as int, len as int);
            if a >= len - b {
                lemma_fundamental_div_mod_converse((a + b) as int, len as int, 1, (a + b - len) as int);
            } else {
                lemma_fundamental_div_mod_converse((a + b) as int, len as int, 0, (a + b) as int);
            }
            assert(target as int == expiry_slot(*self, now));
        }
        let ghost before = *self;
        let mut bucket: Vec<String> = Vec::new();
        self.wheel.buckets.set_and_swap(target, &mut bucket);
        bucket.push(String::from_str(id));
        self.wheel.buckets.set_and_swap(target, &mut bucket);
        proof {
            assert forall|i: int| 0 <= i < before.bucket_count() implies #[trigger] self.bucket(i) == if i
                == expiry_slot(before, now) {
                before.bucket(i).push(id@)
            } else {
                before.bucket(i)
            } by {
                if i == target {
                    assert(self.bucket(i) =~= before.bucket(i).push(id@));
                }
            }
        }
    }

    /// Registers `id` as issued at clock reading `now`: advances the wheel to
    /// `now`, enters a fresh record, and files `id` for expiry.
    pub fn register_at(&mut self, id: &str, now: u64)
        requires
            old(self).wf(),
        ensures
            exists|mid: ChallengeInMemoryRegistry|
                advanced(*old(self), mid, now) && #[trigger] filed(mid, *final(self), id@, now),
    {
        self.advance_wheel(now);
        let ghost mid = *self;
        status_map_insert(&mut self.cache, id, ChallengeStatus { verified: false, attempts_count: 0, timestamp: now });
        self.schedule_expiry(id, now);
        assert(filed(mid, *self, id@, now));
    }

    /// Reports, at clock reading `now`, whether `id` may still be answered,
    /// after advancing the wheel to `now`.
    pub fn check_at(&mut self, id: &str, now: u64) -> (r: RegistryCheckResult)
        requires
            old(self).wf(),
        ensures
            advanced(*old(self), *final(self), now),
            r == check_outcome(record_of(final(self).records(), id@), now, old(self).ttl(), old(self).max_attempts()),
    {
        self.advance_wheel(now);
        match status_map_get(&self.cache, id) {
            None => RegistryCheckResult::NotRegistered,
            Some(st) => {
                if st.verified {
                    RegistryCheckResult::AlreadyVerified
                } else if st.attempts_count >= self.max_attempts {
                    RegistryCheckResult::MaxAttemptsLimitExceeded
                } else if now.saturating_sub(st.timestamp) <= self.ttl {
                    RegistryCheckResult::Valid
                } else {
                    RegistryCheckResult::NotRegistered
                }
            },
        }
    }
}

impl ChallengeRegistry for ChallengeInMemoryRegistry {
    closed spec fn records(&self) -> Map<Seq<char>, ChallengeStatus> {
        status_entries(self.cache)
    }

    closed spec fn ttl(&self) -> u64 {
        self.ttl
    }

    closed spec fn max_attempts(&self) -> u16 {
        self.max_attempts
    }

    closed spec fn wf(&self) -> bool {
        &&& self.wheel.wf()
        &&& self.wheel.len as int == if self.ttl == 0 { 1 } else { self.ttl as int }
    }

    fn register(&mut self, id: &str) {
        let now = now_secs();
        self.register_at(id, now);
    }

    fn check(&mut self, id: &str) -> (r: RegistryCheckResult) {
        let now = now_secs();
        let ghost before = *self;
        let r = self.check_at(id, now);
        proof {
            lemma_advanced_swept(before, *self, now);
        }
        r
    }

    fn verify(&mut self, id: &str) {
        if let Some(st) = status_map_get(&self.cache, id) {
            status_map_insert(&mut self.cache, id, ChallengeStatus { verified: true, ..st });
        }
    }

    fn note_attempt(&mut self, id: &str, success: bool) {
        if let Some(st) = status_map_get(&self.cache, id) {
            if !success {
                status_map_insert(
                    &mut self.cache,
                    id,
                    ChallengeStatus { attempts_count: st.attempts_count.saturating_add(1), ..st },
                );
            }
        }
    }
}

/// The records after `k` failed guesses on `id`.
pub open spec fn note_failures(m: Map<Seq<char>, ChallengeStatus>, id: Seq<char>, k: nat) -> Map<Seq<char>, ChallengeStatus>
    decreases k,
{
    if k == 0 {
        m
    } else {
        note_guess(note_failures(m, id, (k - 1) as nat), id, false)
    }
}

/// A fresh record, checked before it expires, is reported `Valid` wherever at
/// least one guess is allowed.
pub proof fn lemma_register_then_check(
    registered: Map<Seq<char>, ChallengeStatus>,
    id: Seq<char>,
    issued: u64,
    now: u64,
    ttl: u64,
    max_attempts: u16,
    checked: Map<Seq<char>, ChallengeStatus>,
)
    requires
        registered.contains_key(id),
        registered[id] == fresh_status(issued),
        max_attempts > 0,
        now.saturating_sub(issued) < ttl,
        swept(registered, checked, now, ttl),
    ensures
        check_outcome(record_of(checked, id), now, ttl, max_attempts) == RegistryCheckResult::Valid,
{
    assert(checked.contains_key(id));
}

/// A record marked verified is reported `AlreadyVerified` by a check before it
/// expires.
pub proof fn lemma_verified_then_check(
    registered: Map<Seq<char>, ChallengeStatus>,
    id: Seq<char>,
    issued: u64,
    now: u64,
    ttl: u64,
    max_attempts: u16,
    checked: Map<Seq<char>, ChallengeStatus>,
)
    requires
        registered.contains_key(id),
        registered[id] == fresh_status(issued),
        now.saturating_sub(issued) < ttl,
        swept(mark_verified(registered, id), checked, now, ttl),
    ensures
        check_outcome(record_of(checked, id), now, ttl, max_attempts)
            == RegistryCheckResult::AlreadyVerified,
{
    assert(mark_verified(registered, id).contains_key(id));
    assert(checked.contains_key(id));
}

/// `k` failed guesses on a fresh record leave it unverified, with
/// `min(k, u16::MAX)` attempts and its issue time.
pub proof fn lemma_note_failures(m: Map<Seq<char>, ChallengeStatus>, id: Seq<char>, issued: u64, k: nat)
    requires
        m.contains_key(id),
        m[id] == fresh_status(issued),
    ensures
        note_failures(m, id, k).contains_key(id),
        note_failures(m, id, k)[id] == (ChallengeStatus {
            verified: false,
            attempts_count: if k > u16::MAX { u16::MAX } else { k as u16 },
            timestamp: issued,
        }),
    decreases k,
{
    if k > 0 {
        lemma_note_failures(m, id, issued, (k - 1) as nat);
    }
}

/// After at least `max_attempts` failed guesses, a check before the record
/// expires reports `MaxAttemptsLimitExceeded`.
pub proof fn lemma_failures_then_check(
    registered: Map<Seq<char>, ChallengeStatus>,
    id: Seq<char>,
    issued: u64,
    k: nat,
    now: u64,
    ttl: u64,
    max_attempts: u16,
    checked: Map<Seq<char>, ChallengeStatus>,
)
    requires
        registered.contains_key(id),
        registered[id] == fresh_status(issued),
        k >= max_attempts,
        now.saturating_sub(issued) < ttl,
        swept(note_failures(registered, id, k), checked, now, ttl),
    ensures
        check_outcome(record_of(checked, id), now, ttl, max_attempts)
            == RegistryCheckResult::MaxAttemptsLimitExceeded,
{
    lemma_note_failures(registered, id, issued, k);
    assert(checked.contains_key(id));
}

/// An id that was never registered is reported `NotRegistered`.
pub proof fn lemma_unregistered_check(
    records: Map<Seq<char>, ChallengeStatus>,
    id: Seq<char>,
    now: u64,
    ttl: u64,
    max_attempts: u16,
    checked: Map<Seq<char>, ChallengeStatus>,
)
    requires
        !records.contains_key(id),
        swept(records, checked, now, ttl),
    ensures
        check_outcome(record_of(checked, id), now, ttl, max_attempts)
            == RegistryCheckResult::NotRegistered,
{
}

/// A fresh record checked after more than `ttl` seconds is reported
/// `NotRegistered`, whether the wheel has reclaimed it yet or not, wherever at
/// least one guess is allowed.
pub proof fn lemma_expired_check(
    registered: Map<Seq<char>, ChallengeStatus>,
    id: Seq<char>,
    issued: u64,
    now: u64,
    ttl: u64,
    max_attempts: u16,
    checked: Map<Seq<char>, ChallengeStatus>,
)
    requires
        registered.contains_key(id),
        registered[id] == fresh_status(issued),
        max_attempts > 0,
        now.saturating_sub(issued) > ttl,
        swept(registered, checked, now, ttl),
    ensures
        check_outcome(record_of(checked, id), now, ttl, max_attempts)
            == RegistryCheckResult::NotRegistered,
{
}

/// With a single bucket (a time to live of at most one second), a record
/// registered at `issued` is reclaimed by the first check at a later second,
/// so that check reports `NotRegistered` whatever the attempt limit.
pub proof fn lemma_single_bucket_reclaims(
    before: ChallengeInMemoryRegistry,
    mid: ChallengeInMemoryRegistry,
    registered: ChallengeInMemoryRegistry,
    checked: ChallengeInMemoryRegistry,
    id: Seq<char>,
    issued: u64,
    now: u64,
)
    requires
        before.wf(),
        before.bucket_count() == 1,
        before.last_tick() <= issued,
        issued < now,
        advanced(before, mid, issued),
        filed(mid, registered, id, issued),
        advanced(registered, checked, now),
    ensures
        check_outcome(record_of(checked.records(), id), now, checked.ttl(), checked.max_attempts())
            == RegistryCheckResult::NotRegistered,
{
    assert(registered.cursor() == 0);
    assert(expiry_slot(mid, issued) == 0);
    assert(registered.bucket(0) == mid.bucket(0).push(id));
    assert(registered.bucket(0).contains(id)) by {
        assert(registered.bucket(0)[mid.bucket(0).len() as int] == id);
    }
    assert(ring_offset(0, registered.cursor(), registered.bucket_count()) == 1);
    assert(advance_steps(registered, now) >= 1);
    assert(drained_within(registered, advance_steps(registered, now), id));
    assert(registered.records()[id] == fresh_status(issued));
    assert(!checked.records().contains_key(id));
}

} // verus!
