//! The admission step of a limited route: from the request's cookie and
//! route to the decision to forward it or to turn it away.

use crate::key_extractor::{
    cookie_view, credential_of, json_body, law_unauthenticated, rate_limited_response,
    unauthenticated_response, ErrorResponse, ErrorResponseView, PerPathBearerTokenKeyExtractor,
};
use crate::registry::{
    key_view, registry_after, registry_outcome, registry_wf, BucketRegistry, RegistryView,
};
use crate::tier::{Route, TierConfig, TierView};
use crate::token_bucket::{Admission, AdmissionView};
use vstd::prelude::*;

verus! {

/// What is done with a request, as mathematical values.
pub enum DecisionView {
    Forward,
    Reject(ErrorResponseView),
}

/// What is done with a request.
#[derive(Debug, PartialEq)]
pub enum Decision {
    /// The request goes on to its handler, whose response is the answer.
    Forward,
    /// The request is answered with this response; its handler does not run.
    Reject(ErrorResponse),
}

impl View for Decision {
    type V = DecisionView;

    open spec fn view(&self) -> DecisionView {
        match *self {
            Decision::Forward => DecisionView::Forward,
            Decision::Reject(response) => DecisionView::Reject(response@),
        }
    }
}

/// The decision that follows from what the bucket said: forward what was
/// admitted, and answer what was denied with status 429 and the time to
/// wait, in milliseconds.
pub open spec fn decision_of(outcome: AdmissionView) -> DecisionView {
    match outcome {
        AdmissionView::Admitted => DecisionView::Forward,
        AdmissionView::Denied { wait_time } => DecisionView::Reject(
            rate_limited_response(wait_time),
        ),
    }
}

/// The buckets of a route after a request: as before where the request
/// has no credential, and after a request to the bucket of its key where it
/// has one.
pub open spec fn limiter_after(
    reg: RegistryView,
    tier: TierView,
    cookie: Option<Seq<char>>,
    route: Seq<char>,
    now: nat,
) -> RegistryView {
    match credential_of(cookie) {
        Some(credential) => registry_after(reg, (route, credential), tier, now),
        None => reg,
    }
}

/// The decision on a request: status 401 where it has no credential, and
/// what follows from the bucket of its key where it has one.
pub open spec fn limiter_decision(
    reg: RegistryView,
    tier: TierView,
    cookie: Option<Seq<char>>,
    route: Seq<char>,
    now: nat,
) -> DecisionView {
    match credential_of(cookie) {
        Some(credential) => decision_of(registry_outcome(reg, (route, credential), tier, now)),
        None => DecisionView::Reject(unauthenticated_response()),
    }
}

/// A request whose `Authorization` cookie is missing, or does not start
/// with `"Bearer "`, is always answered with status 401 and this body,
/// whatever the buckets hold, and leaves them as they are.
pub proof fn law_no_credential_no_token(
    reg: RegistryView,
    tier: TierView,
    cookie: Option<Seq<char>>,
    route: Seq<char>,
    now: nat,
)
    requires
        cookie matches Some(value) ==> !"Bearer "@.is_prefix_of(value),
    ensures
        limiter_decision(reg, tier, cookie, route, now) == DecisionView::Reject(
            unauthenticated_response(),
        ),
        unauthenticated_response().status_code == 401,
        json_body(unauthenticated_response().body)
            == "{\"code\":401,\"msg\":\"Invalid authorization token\"}"@,
        limiter_after(reg, tier, cookie, route, now) == reg,
{
    law_unauthenticated(cookie);
}

impl Decision {
    /// The decision that follows from what the bucket said, with its time
    /// to wait taken as milliseconds.
    pub fn from_admission(outcome: Admission) -> (r: Self)
        ensures
            r@ == decision_of(outcome@),
    {
        match outcome {
            Admission::Admitted => Decision::Forward,
            Admission::Denied { wait_time } => Decision::Reject(
                PerPathBearerTokenKeyExtractor.exceed_rate_limit_response(wait_time as u128),
            ),
        }
    }
}

/// The limiter of one route: the limits of the route and the buckets of
/// its callers. Its clock counts milliseconds.
pub struct RouteLimiter {
    tier: TierConfig,
    registry: BucketRegistry,
}

impl View for RouteLimiter {
    type V = RegistryView;

    closed spec fn view(&self) -> RegistryView {
        self.registry@
    }
}

impl RouteLimiter {
    /// The registry of the limiter is well formed. Every limiter that this
    /// module hands out is so, and stays so.
    pub closed spec fn wf(&self) -> bool {
        self.registry.wf()
    }

    /// The limits of the route.
    pub closed spec fn tier_view(&self) -> TierView {
        self.tier@
    }

    /// A limiter with the limits `tier` and no buckets.
    pub fn new(tier: TierConfig) -> (r: Self)
        ensures
            r.wf(),
            r.tier_view() == tier@,
            r@ == RegistryView::empty(),
    {
        RouteLimiter { tier, registry: BucketRegistry::new() }
    }

    /// A limiter with the limits of `route` and no buckets.
    pub fn for_route(route: Route) -> (r: Self)
        ensures
            r.wf(),
            r.tier_view() == route.tier_view(),
            r@ == RegistryView::empty(),
    {
        RouteLimiter::new(route.tier())
    }

    /// The limits of the route.
    pub fn tier(&self) -> (r: TierConfig)
        ensures
            r@ == self.tier_view(),
    {
        self.tier
    }

    /// Decides on a request with the rate-limit key `key` at `now_ms`: it
    /// asks the bucket of the key for a token, and makes that bucket first
    /// where the key is new.
    pub fn decide_key(&mut self, key: &(String, String), now_ms: u64) -> (r: Decision)
        requires
            old(self).wf(),
        ensures
            final(self).wf(),
            registry_wf(final(self)@),
            final(self).tier_view() == old(self).tier_view(),
            final(self)@ == registry_after(
                old(self)@,
                key_view(key),
                old(self).tier_view(),
                now_ms as nat,
            ),
            r@ == decision_of(
                registry_outcome(old(self)@, key_view(key), old(self).tier_view(), now_ms as nat),
            ),
    {
        let outcome = self.registry.try_admit(key, self.tier, now_ms);
        Decision::from_admission(outcome)
    }

    /// Decides on a request to `route` at `now_ms`, given the value of its
    /// `Authorization` cookie, if it has one. A request without a
    /// credential is turned away and touches no bucket; any other asks the
    /// bucket of its key for a token.
    pub fn decide(&mut self, cookie: Option<&str>, route: &str, now_ms: u64) -> (r: Decision)
        requires
            old(self).wf(),
        ensures
            final(self).wf(),
            registry_wf(final(self)@),
            final(self).tier_view() == old(self).tier_view(),
            final(self)@ == limiter_after(
                old(self)@,
                old(self).tier_view(),
                cookie_view(cookie),
                route@,
                now_ms as nat,
            ),
            r@ == limiter_decision(
                old(self)@,
                old(self).tier_view(),
                cookie_view(cookie),
                route@,
                now_ms as nat,
            ),
    {
        match PerPathBearerTokenKeyExtractor.extract(cookie, route) {
            Ok(key) => self.decide_key(&key, now_ms),
            Err(response) => {
                proof {
                    self.registry.lemma_wf_view();
                }
                Decision::Reject(response)
            },
        }
    }
}

} // verus!
