//! The front of a restaurant: hosting the guests and serving them.
pub mod hosting;
pub mod serving;
