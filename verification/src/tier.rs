//! The limits of a route, and the three routes that are limited.

use vstd::prelude::*;

verus! {

/// What a [`TierConfig`] holds, as mathematical values.
pub struct TierView {
    pub capacity: nat,
    pub refill_interval: nat,
}

impl TierView {
    /// Both limits are positive.
    pub open spec fn wf(self) -> bool {
        self.capacity > 0 && self.refill_interval > 0
    }
}

/// The limits of one route: how many requests may come at once, and the
/// time, in ticks of the caller's clock, that earns one more.
#[derive(Clone, Copy, Debug, PartialEq, Eq)]
pub struct TierConfig {
    capacity: u32,
    refill_interval: u64,
}

impl View for TierConfig {
    type V = TierView;

    closed spec fn view(&self) -> TierView {
        TierView { capacity: self.capacity as nat, refill_interval: self.refill_interval as nat }
    }
}

impl TierConfig {
    /// Both limits are positive: this holds of every value of the type.
    #[verifier::type_invariant]
    pub closed spec fn wf(self) -> bool {
        self.capacity > 0 && self.refill_interval > 0
    }

    /// The limits `capacity` and `refill_interval`, where both are positive.
    pub fn new(capacity: u32, refill_interval: u64) -> (r: Option<Self>)
        ensures
            match r {
                Some(tier) => capacity > 0 && refill_interval > 0 && tier@ == (TierView {
                    capacity: capacity as nat,
                    refill_interval: refill_interval as nat,
                }),
                None => capacity == 0 || refill_interval == 0,
            },
    {
        if capacity > 0 && refill_interval > 0 {
            Some(TierConfig { capacity, refill_interval })
        } else {
            None
        }
    }

    /// The number of requests that may come at once.
    pub fn capacity(&self) -> (r: u32)
        ensures
            r == self@.capacity,
            self@.wf(),
    {
        proof {
            use_type_invariant(self);
        }
        self.capacity
    }

    /// The time that earns one token.
    pub fn refill_interval(&self) -> (r: u64)
        ensures
            r == self@.refill_interval,
            self@.wf(),
    {
        proof {
            use_type_invariant(self);
        }
        self.refill_interval
    }
}

/// The routes that are limited.
#[derive(Clone, Copy, Debug, PartialEq, Eq, Structural)]
pub enum Route {
    /// `POST /vault`
    CreateItem,
    /// `GET /vault/items`
    ListItems,
    /// `PUT /vault/items/{id}`
    UpdateItem,
}

impl Route {
    /// The limits of the route, with the refill interval in milliseconds.
    pub open spec fn tier_view(self) -> TierView {
        match self {
            Route::CreateItem => TierView { capacity: 3, refill_interval: 20_000 },
            Route::ListItems => TierView { capacity: 1200, refill_interval: 50 },
            Route::UpdateItem => TierView { capacity: 60, refill_interval: 1_000 },
        }
    }

    /// The limits of the route, with the refill interval in milliseconds.
    pub fn tier(&self) -> (r: TierConfig)
        ensures
            r@ == self.tier_view(),
    {
        match self {
            Route::CreateItem => TierConfig { capacity: 3, refill_interval: 20_000 },
            Route::ListItems => TierConfig { capacity: 1200, refill_interval: 50 },
            Route::UpdateItem => TierConfig { capacity: 60, refill_interval: 1_000 },
        }
    }

    /// The HTTP method of the route.
    pub fn method(&self) -> (r: &'static str)
        ensures
            r@ == match *self {
                Route::CreateItem => "POST"@,
                Route::ListItems => "GET"@,
                Route::UpdateItem => "PUT"@,
            },
    {
        match self {
            Route::CreateItem => "POST",
            Route::ListItems => "GET",
            Route::UpdateItem => "PUT",
        }
    }

    /// The path pattern of the route, which identifies it in a rate-limit key.
    pub fn pattern(&self) -> (r: &'static str)
        ensures
            r@ == match *self {
                Route::CreateItem => "/vault"@,
                Route::ListItems => "/vault/items"@,
                Route::UpdateItem => "/vault/items/{id}"@,
            },
    {
        match self {
            Route::CreateItem => "/vault",
            Route::ListItems => "/vault/items",
            Route::UpdateItem => "/vault/items/{id}",
        }
    }
}

} // verus!
