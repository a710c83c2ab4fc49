//! Choosing the response to a request from the bytes that open it.
use vstd::prelude::*;

verus! {

/// What to answer to a request.
#[derive(Clone, Copy, Debug, PartialEq, Eq, Structural)]
pub enum Route {
    /// The home page, at once.
    Home,
    /// The home page, after a pause.
    SlowHome,
    /// Anything else: not found.
    NotFound,
}

/// Whether `s` begins with `prefix`.
pub open spec fn starts_with(s: Seq<u8>, prefix: Seq<u8>) -> bool {
    prefix.len() <= s.len() && s.subrange(0, prefix.len() as int) == prefix
}

/// The request line of the home page.
pub open spec fn home_request() -> Seq<u8> {
    seq![71u8, 69, 84, 32, 47, 32, 72, 84, 84, 80, 47, 49, 46, 49, 13, 10]
}

/// The request line of the slow home page.
pub open spec fn slow_request() -> Seq<u8> {
    seq![
        71u8, 69, 84, 32, 47, 115, 108, 101, 101, 112, 32, 72, 84, 84, 80, 47, 49, 46, 49, 13, 10,
    ]
}

/// Whether `s` begins with `prefix`.
fn has_prefix(s: &[u8], prefix: &[u8]) -> (r: bool)
    ensures
        r == starts_with(s@, prefix@),
{
    if prefix.len() > s.len() {
        return false;
    }
    let n = prefix.len();
    for i in 0..n
        invariant
            n == prefix@.len(),
            n <= s@.len(),
            forall|k: int| 0 <= k < i ==> s@[k] == prefix@[k],
    {
        if s[i] != prefix[i] {
            assert(s@.subrange(0, n as int)[i as int] != prefix@[i as int]);
            return false;
        }
    }
    assert(s@.subrange(0, n as int) =~= prefix@);
    true
}

/// The route of a request: `GET / HTTP/1.1` is the home page,
/// `GET /sleep HTTP/1.1` the slow home page, anything else is not found.
pub fn route(request: &[u8]) -> (r: Route)
    ensures
        starts_with(request@, home_request()) ==> r == Route::Home,
        !starts_with(request@, home_request()) && starts_with(request@, slow_request()) ==> r
            == Route::SlowHome,
        !starts_with(request@, home_request()) && !starts_with(request@, slow_request()) ==> r
            == Route::NotFound,
{
    let home: [u8; 16] = [71, 69, 84, 32, 47, 32, 72, 84, 84, 80, 47, 49, 46, 49, 13, 10];
    let slow: [u8; 21] = [
        71, 69, 84, 32, 47, 115, 108, 101, 101, 112, 32, 72, 84, 84, 80, 47, 49, 46, 49, 13, 10,
    ];
    assert(home@ =~= home_request());
    assert(slow@ =~= slow_request());
    if has_prefix(request, &home) {
        Route::Home
    } else if has_prefix(request, &slow) {
        Route::SlowHome
    } else {
        Route::NotFound
    }
}

} // verus!
