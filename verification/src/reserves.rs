//! The manager that lets every reservation wait and then resolves it.

use rand::rngs::StdRng;
use vstd::prelude::*;
use crate::chance::{draw_between, seeded};
use crate::store::{DispatchProduct, Reservation};

verus! {

/// The shortest time, in seconds, that a reservation waits.
pub const MIN_SECS_DISPATCH: usize = 1;

/// The bound, in seconds, below which every wait stays.
pub const MAX_SECS_DISPATCH: usize = 10;

/// How a reservation ends: after `hold_seconds` the store is sent `dispatch`.
pub struct Resolution {
    pub hold_seconds: usize,
    pub dispatch: DispatchProduct,
}

/// Draws how long each reservation waits.
pub struct ReserveManager {
    rng: StdRng,
}

/// Whether `dispatch` resolves `held` after a wait of `hold_seconds`: it names
/// the product and the quantity of the reservation, and it cancels exactly
/// when the wait was longer than the deadline.
pub open spec fn resolves(held: Reservation, hold_seconds: usize, dispatch: DispatchProduct) -> bool {
    &&& dispatch.product@ == held.product@
    &&& dispatch.quantity == held.quantity
    &&& dispatch.cancel_order == (held.deadline_seconds < hold_seconds)
}

/// The message that resolves `held` after it waited `hold_seconds`.
pub fn resolve(held: Reservation, hold_seconds: usize) -> (dispatch: DispatchProduct)
    ensures
        resolves(held, hold_seconds, dispatch),
{
    DispatchProduct {
        product: held.product,
        quantity: held.quantity,
        cancel_order: held.deadline_seconds < hold_seconds,
    }
}

impl ReserveManager {
    /// A manager whose draws start from `seed`.
    pub fn new(seed: u64) -> (m: Self) {
        ReserveManager { rng: seeded(seed) }
    }

    /// Draws the wait of `held`, between `MIN_SECS_DISPATCH` and
    /// `MAX_SECS_DISPATCH` seconds, the latter excluded, and says how the
    /// reservation ends after it.
    pub fn schedule(&mut self, held: Reservation) -> (r: Resolution)
        ensures
            MIN_SECS_DISPATCH <= r.hold_seconds < MAX_SECS_DISPATCH,
            resolves(held, r.hold_seconds, r.dispatch),
    {
        let hold_seconds = draw_between(&mut self.rng, MIN_SECS_DISPATCH, MAX_SECS_DISPATCH);
        Resolution { hold_seconds, dispatch: resolve(held, hold_seconds) }
    }
}

} // verus!
