//! One token bucket: a bounded count of tokens that refills with time and
//! pays one token for each request it admits.

use crate::tier::{TierConfig, TierView};
use vstd::arithmetic::div_mod::{
    lemma_fundamental_div_mod, lemma_fundamental_div_mod_converse, lemma_mod_bound,
};
use vstd::prelude::*;

verus! {

/// What became of a request, with times as mathematical values.
pub enum AdmissionView {
    Admitted,
    Denied { wait_time: nat },
}

/// What became of a request.
#[derive(Clone, Copy, Debug, PartialEq, Eq)]
pub enum Admission {
    /// The request paid a token and may go on.
    Admitted,
    /// No token was left; the next one comes after `wait_time`.
    Denied { wait_time: u64 },
}

impl View for Admission {
    type V = AdmissionView;

    open spec fn view(&self) -> AdmissionView {
        match *self {
            Admission::Admitted => AdmissionView::Admitted,
            Admission::Denied { wait_time } => AdmissionView::Denied {
                wait_time: wait_time as nat,
            },
        }
    }
}

/// The state of a token bucket, as mathematical values.
pub struct BucketView {
    pub capacity: nat,
    pub refill_interval: nat,
    pub tokens_available: nat,
    pub last_refill_at: nat,
}

impl BucketView {
    /// The limits are positive and the bucket holds no more than its capacity.
    pub open spec fn wf(self) -> bool {
        &&& self.capacity > 0
        &&& self.refill_interval > 0
        &&& self.tokens_available <= self.capacity
    }

    /// A full bucket made at `now`.
    pub open spec fn fresh(tier: TierView, now: nat) -> BucketView {
        BucketView {
            capacity: tier.capacity,
            refill_interval: tier.refill_interval,
            tokens_available: tier.capacity,
            last_refill_at: now,
        }
    }

    /// The time from the last refill to `now`; none where `now` lies before it.
    pub open spec fn elapsed(self, now: nat) -> nat {
        if now > self.last_refill_at {
            (now - self.last_refill_at) as nat
        } else {
            0
        }
    }

    /// The tokens that the time to `now` has earned.
    pub open spec fn earned(self, now: nat) -> nat {
        self.elapsed(now) / self.refill_interval
    }

    /// The bucket with the tokens earned by `now` added, up to its capacity,
    /// and the time of the last refill moved on by the time that earned them.
    pub open spec fn refilled(self, now: nat) -> BucketView {
        let earned = self.earned(now);
        BucketView {
            tokens_available: if self.tokens_available + earned <= self.capacity {
                self.tokens_available + earned
            } else {
                self.capacity
            },
            last_refill_at: self.last_refill_at + earned * self.refill_interval,
            ..self
        }
    }

    /// The bucket after a request at `now`.
    pub open spec fn after_request(self, now: nat) -> BucketView {
        let b = self.refilled(now);
        if b.tokens_available >= 1 {
            BucketView { tokens_available: (b.tokens_available - 1) as nat, ..b }
        } else {
            b
        }
    }

    /// What becomes of a request at `now`: it is admitted where the refilled
    /// bucket holds a token, and has to wait for the rest of the running
    /// interval where it holds none.
    pub open spec fn outcome(self, now: nat) -> AdmissionView {
        let b = self.refilled(now);
        if b.tokens_available >= 1 {
            AdmissionView::Admitted
        } else {
            AdmissionView::Denied { wait_time: (b.refill_interval - b.elapsed(now)) as nat }
        }
    }

    /// The bucket after one request at each of `times`, in their order.
    pub open spec fn after_all(self, times: Seq<nat>) -> BucketView
        decreases times.len(),
    {
        if times.len() == 0 {
            self
        } else {
            self.after_all(times.drop_last()).after_request(times.last())
        }
    }

    /// How many of the requests at `times`, taken in their order, are admitted.
    pub open spec fn admitted_count(self, times: Seq<nat>) -> nat
        decreases times.len(),
    {
        if times.len() == 0 {
            0
        } else {
            let front = times.drop_last();
            self.admitted_count(front) + if self.after_all(front).outcome(times.last())
                is Admitted {
                1nat
            } else {
                0nat
            }
        }
    }

    /// The tokens that the bucket holds, with those that the time to
    /// `until` earns.
    pub open spec fn tokens_until(self, until: nat) -> nat {
        self.tokens_available + self.earned(until)
    }
}

/// A bucket never holds more than its capacity, however long it was idle:
/// a well-formed bucket is well formed after a refill and after a request
/// at any time, and keeps its limits.
pub proof fn law_capacity_bound(b: BucketView, now: nat)
    requires
        b.wf(),
    ensures
        b.refilled(now).wf(),
        b.refilled(now).tokens_available <= b.capacity,
        b.after_request(now).wf(),
        b.after_request(now).tokens_available <= b.capacity,
        b.after_request(now).capacity == b.capacity,
        b.after_request(now).refill_interval == b.refill_interval,
{
}

/// The time up to which tokens are counted never runs ahead of the clock,
/// and never back: after a request at `now` it lies between its old value
/// and the later of that value and `now`.
pub proof fn law_refill_monotonic(b: BucketView, now: nat)
    requires
        b.wf(),
    ensures
        b.last_refill_at <= b.after_request(now).last_refill_at,
        b.after_request(now).last_refill_at <= if now > b.last_refill_at {
            now
        } else {
            b.last_refill_at
        },
        b.after_request(now).elapsed(now) < b.refill_interval,
{
    let e = b.elapsed(now);
    let i = b.refill_interval;
    lemma_fundamental_div_mod(e as int, i as int);
    lemma_mod_bound(e as int, i as int);
    let q = e / i;
    let r = e % i;
    assert(q * i == e - r) by (nonlinear_arith)
        requires
            e == i * q + r,
    ;
}

/// A full bucket admits exactly as many requests in a row as its capacity:
/// of the requests that come before the first refill interval is over,
/// those up to the `capacity`-th find a token, and every later one is told
/// to wait for the rest of that interval, which is more than nothing.
pub proof fn law_burst(tier: TierView, made_at: nat, times: Seq<nat>, now: nat)
    requires
        tier.wf(),
        forall|i: int|
            0 <= i < times.len() ==> made_at <= #[trigger] times[i] < made_at
                + tier.refill_interval,
        made_at <= now < made_at + tier.refill_interval,
    ensures
        BucketView::fresh(tier, made_at).after_all(times) == (BucketView {
            tokens_available: if times.len() <= tier.capacity {
                (tier.capacity - times.len()) as nat
            } else {
                0
            },
            ..BucketView::fresh(tier, made_at)
        }),
        BucketView::fresh(tier, made_at).after_all(times).outcome(now) == (if times.len()
            < tier.capacity {
            AdmissionView::Admitted
        } else {
            (AdmissionView::Denied { wait_time: (made_at + tier.refill_interval - now) as nat })
        }),
        0 < made_at + tier.refill_interval - now <= tier.refill_interval,
{
    lemma_no_refill_in_first_interval(tier, made_at, times, now);
}

/// Before the first refill interval of a full bucket is over, requests
/// take tokens and time brings none.
proof fn lemma_no_refill_in_first_interval(tier: TierView, made_at: nat, times: Seq<nat>, now: nat)
    requires
        tier.wf(),
        forall|i: int|
            0 <= i < times.len() ==> made_at <= #[trigger] times[i] < made_at
                + tier.refill_interval,
        made_at <= now < made_at + tier.refill_interval,
    ensures
        BucketView::fresh(tier, made_at).after_all(times) == (BucketView {
            tokens_available: if times.len() <= tier.capacity {
                (tier.capacity - times.len()) as nat
            } else {
                0
            },
            ..BucketView::fresh(tier, made_at)
        }),
        BucketView::fresh(tier, made_at).after_all(times).refilled(now) == BucketView::fresh(
            tier,
            made_at,
        ).after_all(times),
    decreases times.len(),
{
    let fresh = BucketView::fresh(tier, made_at);
    if times.len() > 0 {
        let front = times.drop_last();
        assert forall|i: int| 0 <= i < front.len() implies made_at <= #[trigger] front[i] < made_at
            + tier.refill_interval by {
            assert(front[i] == times[i]);
        }
        lemma_no_refill_in_first_interval(tier, made_at, front, times.last());
        assert(fresh.after_all(times) == fresh.after_all(front).after_request(times.last()));
    }
    let b = fresh.after_all(times);
    let e = b.elapsed(now);
    let i = b.refill_interval;
    assert(e / i == 0) by (nonlinear_arith)
        requires
            0 <= e < i,
    ;
    assert(b.earned(now) == 0);
    assert(b.last_refill_at + 0 * b.refill_interval == b.last_refill_at);
}

/// A request makes no token: what the bucket holds and earns until
/// `until`, together with the token that an admitted request took, is no
/// more after a request than before it.
proof fn lemma_request_pays(b: BucketView, now: nat, until: nat)
    requires
        b.wf(),
        now <= until,
    ensures
        b.after_request(now).wf(),
        b.after_request(now).tokens_until(until) + (if b.outcome(now) is Admitted {
            1nat
        } else {
            0nat
        }) <= b.tokens_until(until),
{
    let i = b.refill_interval as int;
    let e = b.elapsed(now) as int;
    let x = b.elapsed(until) as int;
    lemma_fundamental_div_mod(e, i);
    lemma_mod_bound(e, i);
    lemma_fundamental_div_mod(x, i);
    lemma_mod_bound(x, i);
    let earned = e / i;
    let paid = earned * i;
    assert(paid == e - e % i) by (nonlinear_arith)
        requires
            e == i * earned + e % i,
            paid == earned * i,
    ;
    assert(x - paid == (x / i - earned) * i + x % i) by (nonlinear_arith)
        requires
            x == i * (x / i) + x % i,
            paid == earned * i,
    ;
    lemma_fundamental_div_mod_converse(x - paid, i, x / i - earned, x % i);
    assert(b.refilled(now).last_refill_at == b.last_refill_at + paid);
    assert(b.refilled(now).elapsed(until) == x - paid);
}

/// The limit that the bucket sets: of any requests up to the time `until`,
/// it admits no more than the tokens it holds and one for each whole refill
/// interval from its last refill to `until`. For a new bucket that is its
/// capacity, and one for each whole interval since it was made.
pub proof fn law_rate_bound(b: BucketView, times: Seq<nat>, until: nat)
    requires
        b.wf(),
        forall|i: int| 0 <= i < times.len() ==> #[trigger] times[i] <= until,
    ensures
        b.admitted_count(times) <= b.tokens_available + b.elapsed(until) / b.refill_interval,
        b.admitted_count(times) <= b.capacity + b.elapsed(until) / b.refill_interval,
{
    lemma_admitted_within_tokens(b, times, until);
}

/// The requests that were admitted, and the tokens that are left or still
/// to come until `until`, are together no more than the tokens that were
/// there or to come at the start.
proof fn lemma_admitted_within_tokens(b: BucketView, times: Seq<nat>, until: nat)
    requires
        b.wf(),
        forall|i: int| 0 <= i < times.len() ==> #[trigger] times[i] <= until,
    ensures
        b.after_all(times).wf(),
        b.admitted_count(times) + b.after_all(times).tokens_until(until) <= b.tokens_until(until),
    decreases times.len(),
{
    if times.len() > 0 {
        let front = times.drop_last();
        assert forall|i: int| 0 <= i < front.len() implies #[trigger] front[i] <= until by {
            assert(front[i] == times[i]);
        }
        lemma_admitted_within_tokens(b, front, until);
        lemma_request_pays(b.after_all(front), times.last(), until);
    }
}

/// A denial tells a time to wait that is more than nothing and no more
/// than the refill interval, and a request that comes no earlier than it
/// told is admitted. This is stated of denied requests whose time does not
/// lie before the bucket's last refill.
pub proof fn law_admitted_after_wait(b: BucketView, denied_at: nat, wait_time: nat, now: nat)
    requires
        b.wf(),
        b.last_refill_at <= denied_at,
        b.outcome(denied_at) == (AdmissionView::Denied { wait_time }),
        now >= denied_at + wait_time,
    ensures
        0 < wait_time <= b.refill_interval,
        b.after_request(denied_at).outcome(now) == AdmissionView::Admitted,
{
    let i = b.refill_interval;
    let e = b.elapsed(denied_at);
    lemma_fundamental_div_mod(e as int, i as int);
    lemma_mod_bound(e as int, i as int);
    let q = e / i;
    let r = e % i;
    assert(q * i == e - r) by (nonlinear_arith)
        requires
            e == i * q + r,
    ;
    let after = b.after_request(denied_at);
    assert(after == b.refilled(denied_at));
    assert(after.tokens_available == 0);
    assert(after.elapsed(denied_at) == r);
    assert(wait_time == i - r);
    let later = after.elapsed(now);
    assert(later >= i);
    assert(later / i >= 1) by (nonlinear_arith)
        requires
            later >= i,
            i > 0,
    ;
}

/// After a denial, the request that comes a whole refill interval later,
/// or later still, is admitted. This is stated of denied requests whose
/// time does not lie before the bucket's last refill.
pub proof fn law_admitted_after_interval(b: BucketView, denied_at: nat, now: nat)
    requires
        b.wf(),
        b.last_refill_at <= denied_at,
        b.outcome(denied_at) is Denied,
        now >= denied_at + b.refill_interval,
    ensures
        b.after_request(denied_at).outcome(now) == AdmissionView::Admitted,
{
    let wait_time = b.outcome(denied_at)->wait_time;
    law_admitted_after_wait(b, denied_at, wait_time, (denied_at + wait_time) as nat);
    law_admitted_after_wait(b, denied_at, wait_time, now);
}

/// A token bucket.
#[derive(Debug)]
pub struct TokenBucket {
    capacity: u32,
    refill_interval: u64,
    tokens_available: u32,
    last_refill_at: u64,
}

impl View for TokenBucket {
    type V = BucketView;

    closed spec fn view(&self) -> BucketView {
        BucketView {
            capacity: self.capacity as nat,
            refill_interval: self.refill_interval as nat,
            tokens_available: self.tokens_available as nat,
            last_refill_at: self.last_refill_at as nat,
        }
    }
}

impl TokenBucket {
    /// The state is well formed: this holds of every value of the type.
    #[verifier::type_invariant]
    pub closed spec fn wf(self) -> bool {
        self@.wf()
    }

    /// A full bucket with the limits of `tier`, made at `now`.
    pub fn new(tier: TierConfig, now: u64) -> (r: Self)
        ensures
            r@ == BucketView::fresh(tier@, now as nat),
            r@.wf(),
    {
        let capacity = tier.capacity();
        let refill_interval = tier.refill_interval();
        TokenBucket { capacity, refill_interval, tokens_available: capacity, last_refill_at: now }
    }

    /// The number of requests that may come at once.
    pub fn capacity(&self) -> (r: u32)
        ensures
            r == self@.capacity,
    {
        self.capacity
    }

    /// The time that earns one token.
    pub fn refill_interval(&self) -> (r: u64)
        ensures
            r == self@.refill_interval,
    {
        self.refill_interval
    }

    /// The tokens that were left after the last request.
    pub fn tokens_available(&self) -> (r: u32)
        ensures
            r == self@.tokens_available,
            r <= self@.capacity,
    {
        proof {
            use_type_invariant(self);
        }
        self.tokens_available
    }

    /// The time up to which earned tokens have been counted.
    pub fn last_refill_at(&self) -> (r: u64)
        ensures
            r == self@.last_refill_at,
    {
        self.last_refill_at
    }

    /// Refills the bucket for the time up to `now` and asks it for one
    /// token.
    pub fn try_admit(&mut self, now: u64) -> (r: Admission)
        ensures
            final(self)@ == old(self)@.after_request(now as nat),
            r@ == old(self)@.outcome(now as nat),
            final(self)@.wf(),
    {
        proof {
            use_type_invariant(&*self);
        }
        let elapsed: u64 = if now > self.last_refill_at {
            now - self.last_refill_at
        } else {
            0
        };
        let earned: u64 = elapsed / self.refill_interval;
        let rest: u64 = elapsed % self.refill_interval;
        proof {
            lemma_fundamental_div_mod(elapsed as int, self.refill_interval as int);
            lemma_mod_bound(elapsed as int, self.refill_interval as int);
            assert(earned * self.refill_interval == elapsed - rest) by (nonlinear_arith)
                requires
                    elapsed == self.refill_interval * earned + rest,
            ;
        }
        let room: u32 = self.capacity - self.tokens_available;
        if earned >= room as u64 {
            self.tokens_available = self.capacity;
        } else {
            self.tokens_available = self.tokens_available + earned as u32;
        }
        self.last_refill_at = self.last_refill_at + (elapsed - rest);
        if self.tokens_available >= 1 {
            self.tokens_available = self.tokens_available - 1;
            Admission::Admitted
        } else {
            Admission::Denied { wait_time: self.refill_interval - rest }
        }
    }
}

} // verus!
