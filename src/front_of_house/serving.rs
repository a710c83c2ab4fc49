use vstd::prelude::*;

verus! {

/// Takes a table's order.
pub fn take_order() {
}

/// Brings a table its order.
#[allow(dead_code)]
fn serve_order() {
}

/// Takes a table's payment, and then asks the party to leave.
#[allow(dead_code)]
fn take_payment() {
    super::hosting::ask_to_leave();
}

} // verus!
