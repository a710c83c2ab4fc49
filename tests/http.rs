use web_server::http::{route, Route};

#[test]
fn home_request_routes_home() {
    assert_eq!(route(b"GET / HTTP/1.1\r\nHost: x\r\n\r\n"), Route::Home);
    assert_eq!(route(b"GET / HTTP/1.1\r\n"), Route::Home);
}

#[test]
fn sleep_request_routes_slow() {
    assert_eq!(route(b"GET /sleep HTTP/1.1\r\nHost: x\r\n\r\n"), Route::SlowHome);
}

#[test]
fn other_requests_are_not_found() {
    assert_eq!(route(b""), Route::NotFound);
    assert_eq!(route(b"GET / HTTP/1.1"), Route::NotFound);
    assert_eq!(route(b"GET /other HTTP/1.1\r\n"), Route::NotFound);
    assert_eq!(route(b"POST / HTTP/1.1\r\n"), Route::NotFound);
}
