//! The buckets of a process, one for each rate-limit key that was seen.

use crate::tier::{TierConfig, TierView};
use crate::token_bucket::{
    law_admitted_after_interval, law_burst, law_capacity_bound, law_rate_bound, Admission,
    AdmissionView, BucketView, TokenBucket,
};
use vstd::prelude::*;

verus! {

/// A rate-limit key as mathematical values: the route, then the credential.
pub type KeyView = (Seq<char>, Seq<char>);

/// The buckets of a registry, as a map from keys to bucket states.
pub type RegistryView = Map<KeyView, BucketView>;

/// The view of a rate-limit key.
pub open spec fn key_view(key: &(String, String)) -> KeyView {
    (key.0@, key.1@)
}

/// The bucket that a request with `key` at `now` meets: the one the
/// registry holds for the key, or a full one with the limits of `tier`
/// where it holds none.
pub open spec fn bucket_for(
    reg: RegistryView,
    key: KeyView,
    tier: TierView,
    now: nat,
) -> BucketView {
    if reg.contains_key(key) {
        reg[key]
    } else {
        BucketView::fresh(tier, now)
    }
}

/// The registry after a request with `key` at `now`.
pub open spec fn registry_after(
    reg: RegistryView,
    key: KeyView,
    tier: TierView,
    now: nat,
) -> RegistryView {
    reg.insert(key, bucket_for(reg, key, tier, now).after_request(now))
}

/// What becomes of a request with `key` at `now`.
pub open spec fn registry_outcome(
    reg: RegistryView,
    key: KeyView,
    tier: TierView,
    now: nat,
) -> AdmissionView {
    bucket_for(reg, key, tier, now).outcome(now)
}

/// Every bucket of the registry is well formed.
pub open spec fn registry_wf(reg: RegistryView) -> bool {
    forall|k: KeyView| reg.contains_key(k) ==> (#[trigger] reg[k]).wf()
}

/// The registry after one request with `key` at each of `times`, in their
/// order.
pub open spec fn requests_by(
    reg: RegistryView,
    key: KeyView,
    tier: TierView,
    times: Seq<nat>,
) -> RegistryView
    decreases times.len(),
{
    if times.len() == 0 {
        reg
    } else {
        registry_after(requests_by(reg, key, tier, times.drop_last()), key, tier, times.last())
    }
}

/// In every state that requests lead to, no bucket holds more than its
/// capacity: a request leaves every bucket of the registry well formed, the
/// one it made too.
pub proof fn law_registry_stays_wf(reg: RegistryView, key: KeyView, tier: TierView, now: nat)
    requires
        registry_wf(reg),
        tier.wf(),
    ensures
        registry_wf(registry_after(reg, key, tier, now)),
{
    law_capacity_bound(bucket_for(reg, key, tier, now), now);
}

/// The requests of one key run on its bucket alone: after them the
/// registry holds, under that key, the bucket that the first of them met
/// after all of them, and under every other key what it held before.
pub proof fn lemma_requests_by(reg: RegistryView, key: KeyView, tier: TierView, times: Seq<nat>)
    ensures
        times.len() > 0 ==> requests_by(reg, key, tier, times) == reg.insert(
            key,
            bucket_for(reg, key, tier, times[0]).after_all(times),
        ),
        forall|other: KeyView|
            other != key ==> (#[trigger] requests_by(reg, key, tier, times).contains_key(other)
                == reg.contains_key(other)),
        forall|other: KeyView|
            other != key && reg.contains_key(other) ==> #[trigger] requests_by(
                reg,
                key,
                tier,
                times,
            )[other] == reg[other],
    decreases times.len(),
{
    if times.len() > 0 {
        let front = times.drop_last();
        lemma_requests_by(reg, key, tier, front);
        let before = requests_by(reg, key, tier, front);
        if front.len() > 0 {
            assert(front[0] == times[0]);
            let first = bucket_for(reg, key, tier, times[0]);
            assert(before[key] == first.after_all(front));
            assert(requests_by(reg, key, tier, times) =~= reg.insert(key, first.after_all(times)));
        } else {
            assert(times.last() == times[0]);
            let first = bucket_for(reg, key, tier, times[0]);
            assert(first.after_all(front) == first);
            assert(requests_by(reg, key, tier, times) =~= reg.insert(key, first.after_all(times)));
        }
    }
}

/// The first request of a key is admitted, whatever the registry holds
/// for other keys.
pub proof fn law_first_request_admitted(reg: RegistryView, key: KeyView, tier: TierView, now: nat)
    requires
        tier.wf(),
        !reg.contains_key(key),
    ensures
        registry_outcome(reg, key, tier, now) == AdmissionView::Admitted,
{
    let b = BucketView::fresh(tier, now);
    assert(b.elapsed(now) == 0);
    assert(b.earned(now) == 0) by (nonlinear_arith)
        requires
            b.earned(now) == 0nat / b.refill_interval,
            b.refill_interval > 0,
    ;
}

/// Keys do not touch each other: what becomes of a request is the same
/// after any requests of another key as without them.
pub proof fn law_keys_independent(
    reg: RegistryView,
    busy: KeyView,
    busy_tier: TierView,
    times: Seq<nat>,
    key: KeyView,
    tier: TierView,
    now: nat,
)
    requires
        busy != key,
    ensures
        bucket_for(requests_by(reg, busy, busy_tier, times), key, tier, now) == bucket_for(
            reg,
            key,
            tier,
            now,
        ),
        registry_outcome(requests_by(reg, busy, busy_tier, times), key, tier, now)
            == registry_outcome(reg, key, tier, now),
{
    lemma_requests_by(reg, busy, busy_tier, times);
}

/// On one route, whatever one credential asks for, and however often, the
/// first request of another credential is admitted.
pub proof fn law_credentials_independent(
    reg: RegistryView,
    tier: TierView,
    route: Seq<char>,
    busy: Seq<char>,
    times: Seq<nat>,
    credential: Seq<char>,
    now: nat,
)
    requires
        tier.wf(),
        busy != credential,
        !reg.contains_key((route, credential)),
    ensures
        registry_outcome(
            requests_by(reg, (route, busy), tier, times),
            (route, credential),
            tier,
            now,
        ) == AdmissionView::Admitted,
{
    law_keys_independent(reg, (route, busy), tier, times, (route, credential), tier, now);
    law_first_request_admitted(reg, (route, credential), tier, now);
}

/// Whatever a credential asks for on one route, and however often, its
/// first request on another route is admitted.
pub proof fn law_routes_independent(
    reg: RegistryView,
    busy_route: Seq<char>,
    busy_tier: TierView,
    times: Seq<nat>,
    route: Seq<char>,
    tier: TierView,
    credential: Seq<char>,
    now: nat,
)
    requires
        tier.wf(),
        busy_route != route,
        !reg.contains_key((route, credential)),
    ensures
        registry_outcome(
            requests_by(reg, (busy_route, credential), busy_tier, times),
            (route, credential),
            tier,
            now,
        ) == AdmissionView::Admitted,
{
    law_keys_independent(
        reg,
        (busy_route, credential),
        busy_tier,
        times,
        (route, credential),
        tier,
        now,
    );
    law_first_request_admitted(reg, (route, credential), tier, now);
}

/// A key that the registry has not seen is admitted as often in a row as
/// the capacity of its route: of its requests that come before one refill
/// interval has passed since the first, those up to the `capacity`-th are
/// admitted, and every later one is told to wait for the rest of that
/// interval, which is more than nothing.
pub proof fn law_fresh_key_burst(
    reg: RegistryView,
    key: KeyView,
    tier: TierView,
    times: Seq<nat>,
    now: nat,
)
    requires
        tier.wf(),
        !reg.contains_key(key),
        times.len() > 0,
        forall|i: int|
            0 <= i < times.len() ==> times[0] <= #[trigger] times[i] < times[0]
                + tier.refill_interval,
        times[0] <= now < times[0] + tier.refill_interval,
    ensures
        registry_outcome(requests_by(reg, key, tier, times), key, tier, now) == (if times.len()
            < tier.capacity {
            AdmissionView::Admitted
        } else {
            (AdmissionView::Denied { wait_time: (times[0] + tier.refill_interval - now) as nat })
        }),
        0 < times[0] + tier.refill_interval - now <= tier.refill_interval,
{
    lemma_requests_by(reg, key, tier, times);
    law_burst(tier, times[0], times, now);
}

/// How many of the requests with `key` at `times`, taken in their order,
/// are admitted.
pub open spec fn admitted_by(
    reg: RegistryView,
    key: KeyView,
    tier: TierView,
    times: Seq<nat>,
) -> nat
    decreases times.len(),
{
    if times.len() == 0 {
        0
    } else {
        let front = times.drop_last();
        admitted_by(reg, key, tier, front) + if registry_outcome(
            requests_by(reg, key, tier, front),
            key,
            tier,
            times.last(),
        ) is Admitted {
            1nat
        } else {
            0nat
        }
    }
}

/// The registry admits of a key what the bucket of the key admits.
proof fn lemma_admitted_by(reg: RegistryView, key: KeyView, tier: TierView, times: Seq<nat>)
    requires
        times.len() > 0,
    ensures
        admitted_by(reg, key, tier, times) == bucket_for(reg, key, tier, times[0]).admitted_count(
            times,
        ),
    decreases times.len(),
{
    let first = bucket_for(reg, key, tier, times[0]);
    let front = times.drop_last();
    if front.len() > 0 {
        assert(front[0] == times[0]);
        lemma_admitted_by(reg, key, tier, front);
        lemma_requests_by(reg, key, tier, front);
        assert(requests_by(reg, key, tier, front)[key] == first.after_all(front));
    } else {
        assert(times.last() == times[0]);
        assert(first.after_all(front) == first);
        assert(first.admitted_count(front) == 0);
        assert(admitted_by(reg, key, tier, front) == 0);
    }
}

/// The limit of a key: of its requests up to the time `until`, no more are
/// admitted than its bucket holds when the first of them comes, and one for
/// each whole refill interval from the last refill of that bucket to
/// `until`. For a key that the registry has not seen, that is the capacity
/// of its route, and one for each whole interval since its first request.
pub proof fn law_key_rate_bound(
    reg: RegistryView,
    key: KeyView,
    tier: TierView,
    times: Seq<nat>,
    until: nat,
)
    requires
        registry_wf(reg),
        tier.wf(),
        times.len() > 0,
        forall|i: int| 0 <= i < times.len() ==> #[trigger] times[i] <= until,
    ensures
        admitted_by(reg, key, tier, times) <= bucket_for(reg, key, tier, times[0]).tokens_available
            + bucket_for(reg, key, tier, times[0]).elapsed(until) / bucket_for(
            reg,
            key,
            tier,
            times[0],
        ).refill_interval,
        !reg.contains_key(key) ==> admitted_by(reg, key, tier, times) <= tier.capacity + (until
            - times[0]) / (tier.refill_interval as int),
{
    lemma_admitted_by(reg, key, tier, times);
    law_rate_bound(bucket_for(reg, key, tier, times[0]), times, until);
}

/// After a denial, the request of the same key that comes a whole refill
/// interval later, or later still, is admitted. This is stated of denied
/// requests whose time does not lie before the last refill of their bucket.
pub proof fn law_key_admitted_after_interval(
    reg: RegistryView,
    key: KeyView,
    tier: TierView,
    denied_at: nat,
    now: nat,
)
    requires
        registry_wf(reg),
        tier.wf(),
        bucket_for(reg, key, tier, denied_at).last_refill_at <= denied_at,
        registry_outcome(reg, key, tier, denied_at) is Denied,
        now >= denied_at + bucket_for(reg, key, tier, denied_at).refill_interval,
    ensures
        registry_outcome(registry_after(reg, key, tier, denied_at), key, tier, now)
            == AdmissionView::Admitted,
{
    law_admitted_after_interval(bucket_for(reg, key, tier, denied_at), denied_at, now);
}

struct Entry {
    route: String,
    credential: String,
    bucket: TokenBucket,
}

impl Entry {
    spec fn key(self) -> KeyView {
        (self.route@, self.credential@)
    }
}

/// The buckets that were made so far, each under its key. No key occurs
/// twice, and no bucket is ever taken out. A bucket is found by walking the
/// entries, so a request takes time in proportion to their number.
pub struct BucketRegistry {
    entries: Vec<Entry>,
}

impl View for BucketRegistry {
    type V = RegistryView;

    closed spec fn view(&self) -> RegistryView {
        Map::new(
            |k: KeyView| self.holds(k),
            |k: KeyView| self.entries@[self.index_of(k)].bucket@,
        )
    }
}

impl BucketRegistry {
    spec fn holds(self, k: KeyView) -> bool {
        exists|i: int| 0 <= i < self.entries@.len() && #[trigger] self.entries@[i].key() == k
    }

    spec fn index_of(self, k: KeyView) -> int {
        choose|i: int| 0 <= i < self.entries@.len() && #[trigger] self.entries@[i].key() == k
    }

    spec fn keys_differ(self) -> bool {
        forall|i: int, j: int|
            0 <= i < j < self.entries@.len() ==> #[trigger] self.entries@[i].key()
                != #[trigger] self.entries@[j].key()
    }

    spec fn buckets_wf(self) -> bool {
        forall|i: int| 0 <= i < self.entries@.len() ==> (#[trigger] self.entries@[i]).bucket@.wf()
    }

    /// No key occurs twice, and every bucket is well formed. Every registry
    /// that this module hands out is so, and stays so.
    pub closed spec fn wf(&self) -> bool {
        self.keys_differ() && self.buckets_wf()
    }

    /// In a well-formed registry no bucket holds more than its capacity.
    pub proof fn lemma_wf_view(&self)
        requires
            self.wf(),
        ensures
            registry_wf(self@),
    {
        assert forall|k: KeyView| self@.contains_key(k) implies (#[trigger] self@[k]).wf() by {
            let i = self.index_of(k);
            assert(self.entries@[i].bucket@.wf());
        }
    }

    /// A registry without buckets.
    pub fn new() -> (r: Self)
        ensures
            r.wf(),
            r@ == RegistryView::empty(),
    {
        let r = BucketRegistry { entries: Vec::new() };
        assert(r@ =~= RegistryView::empty());
        r
    }

    fn position(&self, key: &(String, String)) -> (r: Option<usize>)
        ensures
            match r {
                Some(i) => i < self.entries@.len() && self.entries@[i as int].key() == key_view(key),
                None => !self.holds(key_view(key)),
            },
    {
        let mut i: usize = 0;
        while i < self.entries.len()
            invariant
                i <= self.entries@.len(),
                forall|j: int| 0 <= j < i ==> #[trigger] self.entries@[j].key() != key_view(key),
            decreases self.entries@.len() - i,
        {
            if self.entries[i].route == key.0 && self.entries[i].credential == key.1 {
                return Some(i);
            }
            i += 1;
        }
        None
    }

    /// The number of buckets, which is the number of keys that were seen.
    pub fn len(&self) -> (r: usize)
        requires
            self.wf(),
        ensures
            r == self@.dom().len(),
            self@.dom().finite(),
    {
        proof {
            let keys = self.entries@.map_values(|e: Entry| e.key());
            assert forall|i: int, j: int| 0 <= i < keys.len() && 0 <= j < keys.len() && i != j
                implies keys[i] != keys[j] by {
                if i < j {
                    assert(self.entries@[i].key() != self.entries@[j].key());
                } else {
                    assert(self.entries@[j].key() != self.entries@[i].key());
                }
            }
            keys.unique_seq_to_set();
            assert forall|k: KeyView| keys.to_set().contains(k) <==> self@.dom().contains(k) by {
                if keys.to_set().contains(k) {
                    let i = choose|i: int| 0 <= i < keys.len() && keys[i] == k;
                    assert(self.entries@[i].key() == k);
                }
                if self.holds(k) {
                    let i = self.index_of(k);
                    assert(keys[i] == k);
                }
            }
            assert(keys.to_set() =~= self@.dom());
        }
        self.entries.len()
    }

    /// Whether the registry holds a bucket for `key`.
    pub fn contains(&self, key: &(String, String)) -> (r: bool)
        ensures
            r == self@.contains_key(key_view(key)),
    {
        self.position(key).is_some()
    }

    /// The bucket of `key`. Where the registry holds none, it first makes a
    /// full one with the limits of `tier` at `now`; where it holds one,
    /// `tier` and `now` are not looked at.
    pub fn get_or_create(
        &mut self,
        key: &(String, String),
        tier: TierConfig,
        now: u64,
    ) -> (bucket: &mut TokenBucket)
        requires
            old(self).wf(),
        ensures
            bucket@ == bucket_for(old(self)@, key_view(key), tier@, now as nat),
            bucket@.wf(),
            final(bucket)@.wf() ==> final(self).wf(),
            final(self)@ == old(self)@.insert(key_view(key), final(bucket)@),
    {
        let i = match self.position(key) {
            Some(i) => i,
            None => {
                let entry = Entry {
                    route: key.0.clone(),
                    credential: key.1.clone(),
                    bucket: TokenBucket::new(tier, now),
                };
                self.entries.push(entry);
                proof {
                    assert(self.entries@.drop_last() =~= old(self).entries@);
                    Self::lemma_pushed(*old(self), *self, key_view(key));
                }
                self.entries.len() - 1
            },
        };
        let ghost found = *self;
        let bucket = &mut self.entries[i].bucket;
        proof {
            Self::lemma_replaced(found, after_borrow(*self), i as int);
        }
        bucket
    }

    /// A registry with one more entry, whose key is new, holds one more bucket.
    proof fn lemma_pushed(before: Self, after: Self, k: KeyView)
        requires
            before.wf(),
            !before.holds(k),
            after.entries@.len() == before.entries@.len() + 1,
            after.entries@.drop_last() == before.entries@,
            after.entries@.last().key() == k,
            after.entries@.last().bucket@.wf(),
        ensures
            after.wf(),
            after@ == before@.insert(k, after.entries@.last().bucket@),
    {
        let n = before.entries@.len() as int;
        assert forall|j: int| 0 <= j < n implies after.entries@[j] == before.entries@[j] by {
            assert(after.entries@.drop_last()[j] == after.entries@[j]);
        }
        assert forall|j: int| 0 <= j < n implies #[trigger] after.entries@[j].key() != k by {
            assert(before.entries@[j].key() != k);
        }
        assert(after.entries@[n].key() == k);
        assert forall|q: KeyView| after.holds(q) <==> (q == k || before.holds(q)) by {
            if before.holds(q) {
                let j = before.index_of(q);
                assert(after.entries@[j].key() == q);
            }
        }
        assert forall|q: KeyView| after.holds(q) implies #[trigger] after@[q] == before@.insert(
            k,
            after.entries@.last().bucket@,
        )[q] by {
            let j = after.index_of(q);
            if q != k {
                let j0 = before.index_of(q);
                assert(before.entries@[j0].key() == q);
                assert(after.entries@[j0].key() == q);
                assert(j < n);
                assert(before.entries@[j].key() == q);
            }
        }
        assert(after@ =~= before@.insert(k, after.entries@.last().bucket@));
    }

    /// A registry in which one bucket was replaced holds that bucket under
    /// the key of its entry, and the other buckets as before.
    proof fn lemma_replaced(before: Self, after: Self, i: int)
        requires
            before.wf(),
            0 <= i < before.entries@.len(),
            after.entries@.len() == before.entries@.len(),
            forall|j: int|
                0 <= j < before.entries@.len() && j != i ==> after.entries@[j] == before.entries@[j],
            after.entries@[i].key() == before.entries@[i].key(),
        ensures
            before.entries@[i].bucket@.wf(),
            after.entries@[i].bucket@.wf() ==> after.wf(),
            after@ == before@.insert(before.entries@[i].key(), after.entries@[i].bucket@),
    {
        let k = before.entries@[i].key();
        assert forall|j: int| 0 <= j < before.entries@.len() implies #[trigger] after.entries@[j]
            .key() == before.entries@[j].key() by {}
        assert forall|q: KeyView| after.holds(q) <==> before.holds(q) by {
            if before.holds(q) {
                let j = before.index_of(q);
                assert(after.entries@[j].key() == q);
            }
            if after.holds(q) {
                let j = after.index_of(q);
                assert(before.entries@[j].key() == q);
            }
        }
        assert(before.holds(k));
        assert forall|q: KeyView| after.holds(q) implies #[trigger] after@[q] == before@.insert(
            k,
            after.entries@[i].bucket@,
        )[q] by {
            let j = after.index_of(q);
            assert(before.entries@[j].key() == q);
            if q != k {
                let j0 = before.index_of(q);
                assert(before.entries@[j0].key() == q);
            }
        }
        assert(after@ =~= before@.insert(k, after.entries@[i].bucket@));
    }

    /// Hands a request with `key` at `now` to the bucket of its key, which
    /// is made first where the registry holds none.
    pub fn try_admit(
        &mut self,
        key: &(String, String),
        tier: TierConfig,
        now: u64,
    ) -> (r: Admission)
        requires
            old(self).wf(),
        ensures
            final(self).wf(),
            final(self)@ == registry_after(old(self)@, key_view(key), tier@, now as nat),
            r@ == registry_outcome(old(self)@, key_view(key), tier@, now as nat),
            registry_wf(final(self)@),
    {
        let r = self.get_or_create(key, tier, now).try_admit(now);
        proof {
            self.lemma_wf_view();
        }
        r
    }
}

} // verus!
