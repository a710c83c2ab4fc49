use web_server::front_of_house::hosting;
use web_server::{eat_at_restaurant, serving, Rng};

#[test]
fn rng_keeps_its_value() {
    let r = Rng::new(7, String::from("Hello, world!"));
    assert_eq!(r.val, "Hello, world!");
}

#[test]
fn restaurant_visit_runs() {
    hosting::add_to_waitlist();
    hosting::seat_at_table();
    hosting::ask_to_leave();
    serving::take_order();
    eat_at_restaurant();
}
