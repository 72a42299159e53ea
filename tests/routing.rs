use web_framework::server::{bad_request, internal_error, not_found};
use web_framework::{dispatch, App, ParseError, Request, Router, Step};

#[test]
fn routing_is_exact() {
    let mut r: Router<u32> = Router::new();
    r.add_get("/x", 1);
    assert_eq!(r.resolve("GET", "/x"), Some(&1));
    assert_eq!(r.resolve("GET", "/x/"), None);
    assert_eq!(r.resolve("POST", "/x"), None);
    assert_eq!(r.resolve("get", "/x"), None);
    assert_eq!(r.resolve("GET", "/X"), None);
}

#[test]
fn reregistering_replaces_handler() {
    let mut r: Router<u32> = Router::new();
    r.add_get("/x", 1);
    r.add_post("/x", 5);
    r.add_get("/x", 2);
    assert_eq!(r.resolve("GET", "/x"), Some(&2));
    assert_eq!(r.resolve("POST", "/x"), Some(&5));
}

#[test]
fn register_accepts_other_methods() {
    let mut r: Router<u32> = Router::new();
    r.register("DELETE", "/item", 9);
    assert_eq!(r.resolve("DELETE", "/item"), Some(&9));
    assert_eq!(r.resolve("GET", "/item"), None);
}

#[test]
fn app_registration() {
    let mut app: App<u32> = App::new();
    assert_eq!(app.pool_size(), 4);
    app.get("/", 1);
    app.post("/form", 2);
    assert_eq!(app.router().resolve("GET", "/"), Some(&1));
    assert_eq!(app.router().resolve("POST", "/form"), Some(&2));
    let app = app.with_pool_size(8);
    assert_eq!(app.pool_size(), 8);
    assert_eq!(app.router().resolve("GET", "/"), Some(&1));
}

#[test]
fn missing_separator_gets_bad_request() {
    let mut r: Router<u32> = Router::new();
    r.add_get("/", 1);
    let parsed = Request::from_bytes(b"GET / HTTP/1.1\r\nHost: x\r\n");
    match dispatch(&r, parsed) {
        Step::Reply(resp) => {
            assert_eq!(resp.status_code(), 400);
            assert!(!resp.body().is_empty());
        }
        Step::Invoke(_, _) => panic!("handler called for an unreadable request"),
    }
}

#[test]
fn io_error_gets_bad_request() {
    let r: Router<u32> = Router::new();
    match dispatch(&r, Err(ParseError::Io)) {
        Step::Reply(resp) => assert_eq!(resp.status_code(), 400),
        Step::Invoke(_, _) => panic!("handler called after a failed read"),
    }
}

#[test]
fn unregistered_route_gets_not_found_with_body() {
    let mut r: Router<u32> = Router::new();
    r.add_get("/x", 1);
    let parsed = Request::from_bytes(b"GET /x/ HTTP/1.1\r\n\r\n");
    match dispatch(&r, parsed) {
        Step::Reply(resp) => {
            assert_eq!(resp.status_code(), 404);
            assert_eq!(resp.body(), b"404 Not Found");
        }
        Step::Invoke(_, _) => panic!("no route should match"),
    }
}

#[test]
fn registered_route_invokes_handler() {
    let mut r: Router<u32> = Router::new();
    r.add_get("/x", 1);
    r.add_post("/x", 2);
    let parsed = Request::from_bytes(b"POST /x?a=b HTTP/1.1\r\nContent-Length: 1\r\n\r\nz");
    match dispatch(&r, parsed) {
        Step::Invoke(h, req) => {
            assert_eq!(h, 2);
            assert_eq!(req.body, b"z".to_vec());
            assert_eq!(req.query.get("a").unwrap(), "b");
        }
        Step::Reply(_) => panic!("route should match"),
    }
}

#[test]
fn fallback_replies() {
    assert_eq!(bad_request().serialize(), b"HTTP/1.1 400 Bad Request\r\nContent-Length: 15\r\nContent-Type: text/plain\r\n\r\n400 Bad Request".to_vec());
    assert_eq!(not_found().status_code(), 404);
    assert_eq!(internal_error().status_code(), 500);
    assert_eq!(internal_error().body(), b"500 Internal Server Error");
}

#[test]
fn sequence_of_registrations_keeps_last_exact_match() {
    let mut r: Router<u32> = Router::new();
    r.add_get("/a", 1);
    r.add_post("/a", 2);
    r.add_get("/b", 3);
    r.add_get("/a", 4);
    r.add_post("/b/", 5);
    assert_eq!(r.resolve("GET", "/a"), Some(&4));
    assert_eq!(r.resolve("POST", "/a"), Some(&2));
    assert_eq!(r.resolve("GET", "/b"), Some(&3));
    assert_eq!(r.resolve("POST", "/b"), None);
    assert_eq!(r.resolve("POST", "/b/"), Some(&5));
    assert_eq!(r.resolve("GET", "/A"), None);
    assert_eq!(r.resolve("PUT", "/a"), None);
}
