//! A fixed-size worker pool controller, with a few small companions: request
//! routing for the web server that runs on the pool, rectangles, a line
//! search, a keyed value and a restaurant-flavoured module tree.
use vstd::prelude::*;

pub mod front_of_house;
pub mod grep;
pub mod http;
pub mod pool;
pub mod rng;
pub mod shapes;

pub use front_of_house::serving;
pub use rng::Rng;

verus! {

/// A visit: join the waiting list, sit down, and order.
pub fn eat_at_restaurant() {
    crate::front_of_house::hosting::add_to_waitlist();
    front_of_house::hosting::seat_at_table();
    serving::take_order();
}

} // verus!
