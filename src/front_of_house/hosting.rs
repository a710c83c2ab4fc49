use vstd::prelude::*;

verus! {

/// Puts a party on the waiting list.
pub fn add_to_waitlist() {
}

/// Seats a party at a table.
pub fn seat_at_table() {
}

/// Asks a party to leave.
pub fn ask_to_leave() {
}

} // verus!
