use tide::http::{Request, Response};
use tide::method::Method;
use tide::middleware::{EchoParamEndpoint, StateEndpoint, TextEndpoint};
use tide::router::RouteError;
use tide::service::{Server, Service};

type App = Server<(), TextEndpoint, tide::middleware::TagMiddleware>;
type Svc = Service<(), TextEndpoint, tide::middleware::TagMiddleware>;

fn text(body: &str) -> TextEndpoint {
    TextEndpoint { body: body.to_string() }
}

fn request(path: &str, method: Method) -> Request {
    Request { method, path: path.to_string(), headers: Vec::new(), body: String::new() }
}

fn simulate(svc: &Svc, path: &str, method: Method) -> Response {
    svc.respond(request(path, method))
}

#[test]
fn simple_static() {
    let mut router: App = Server::new();
    let r = router.at("/");
    r.get(&mut router, text("/")).unwrap();
    let r = router.at("/foo");
    r.get(&mut router, text("/foo")).unwrap();
    let r = router.at("/foo/bar");
    r.get(&mut router, text("/foo/bar")).unwrap();
    let svc = router.into_service();

    for path in &["/", "/foo", "/foo/bar"] {
        let res = simulate(&svc, path, Method::Get);
        let body = res.body;
        assert_eq!(&*body, *path);
    }
}

#[test]
fn nested_static() {
    let mut router: App = Server::new();
    let r = router.at("/a");
    r.get(&mut router, text("/a")).unwrap();
    let b = router.at("/b");
    {
        let r = b.at("/");
        r.get(&mut router, text("/b")).unwrap();
        let r = b.at("/a");
        r.get(&mut router, text("/b/a")).unwrap();
        let r = b.at("/b");
        r.get(&mut router, text("/b/b")).unwrap();
        let c = b.at("/c");
        {
            let r = c.at("/a");
            r.get(&mut router, text("/b/c/a")).unwrap();
            let r = c.at("/b");
            r.get(&mut router, text("/b/c/b")).unwrap();
        }
        let r = b.at("/d");
        r.get(&mut router, text("/b/d")).unwrap();
    }
    let aa = router.at("/a/a");
    {
        let r = aa.at("/a");
        r.get(&mut router, text("/a/a/a")).unwrap();
        let r = aa.at("/b");
        r.get(&mut router, text("/a/a/b")).unwrap();
    }
    let ab = router.at("/a/b");
    {
        let r = ab.at("/");
        r.get(&mut router, text("/a/b")).unwrap();
    }
    let svc = router.into_service();

    for failing_path in &["/", "/a/a", "/a/b/a"] {
        let res = simulate(&svc, failing_path, Method::Get);
        if !(400 <= res.status && res.status < 500) {
            panic!(
                "Should have returned a client error when router cannot match with path {}",
                failing_path
            );
        }
    }

    for path in &[
        "/a", "/a/a/a", "/a/a/b", "/a/b", "/b", "/b/a", "/b/b", "/b/c/a", "/b/c/b", "/b/d",
    ] {
        let res = simulate(&svc, path, Method::Get);
        let body = res.body;
        assert_eq!(&*body, *path);
    }
}

#[test]
fn multiple_methods() {
    let mut router: App = Server::new();
    let a = router.at("/a");
    {
        let r = a.at("/b");
        r.get(&mut router, text("/a/b GET")).unwrap();
    }
    let r = router.at("/a/b");
    r.post(&mut router, text("/a/b POST")).unwrap();
    let svc = router.into_service();

    for (path, method, tag) in &[("/a/b", Method::Get, "GET"), ("/a/b", Method::Post, "POST")] {
        let res = simulate(&svc, path, *method);
        assert!(200 <= res.status && res.status < 300);
        let body = res.body;
        assert_eq!(body, format!("{} {}", path, tag));
    }
}

#[test]
fn method_not_allowed_on_third_method() {
    let mut router: App = Server::new();
    let a = router.at("/a");
    let r = a.at("/b");
    r.get(&mut router, text("/a/b GET")).unwrap();
    let r = router.at("/a/b");
    r.post(&mut router, text("/a/b POST")).unwrap();
    let svc = router.into_service();

    let res = simulate(&svc, "/a/b", Method::Put);
    assert_eq!(res.status, 405);
}

#[test]
fn not_found_and_method_not_allowed_are_distinct() {
    let mut router: App = Server::new();
    let r = router.at("/only/get");
    r.get(&mut router, text("x")).unwrap();
    let svc = router.into_service();

    let no_route = simulate(&svc, "/nothing/here", Method::Get);
    assert_eq!(no_route.status, 404);
    let wrong_method = simulate(&svc, "/only/get", Method::Post);
    assert_eq!(wrong_method.status, 405);
    assert_ne!(no_route.status, wrong_method.status);
}

#[test]
fn wildcard_captures_segment() {
    let mut router: Server<(), EchoParamEndpoint, tide::middleware::TagMiddleware> = Server::new();
    let r = router.at("/hello/:user");
    r.get(&mut router, EchoParamEndpoint { name: "user".to_string() }).unwrap();
    let svc = router.into_service();

    let res = simulate_echo(&svc, "/hello/world", Method::Get);
    assert_eq!(res.status, 200);
    assert_eq!(res.body, "world");

    let too_short = simulate_echo(&svc, "/hello", Method::Get);
    assert_eq!(too_short.status, 405);
    let too_long = simulate_echo(&svc, "/hello/a/b", Method::Get);
    assert_eq!(too_long.status, 404);
}

fn simulate_echo(
    svc: &Service<(), EchoParamEndpoint, tide::middleware::TagMiddleware>,
    path: &str,
    method: Method,
) -> Response {
    svc.respond(request(path, method))
}

#[test]
fn anonymous_wildcard_matches_without_capture() {
    let mut router: Server<(), EchoParamEndpoint, tide::middleware::TagMiddleware> = Server::new();
    let r = router.at("/x/:");
    r.get(&mut router, EchoParamEndpoint { name: "x".to_string() }).unwrap();
    let svc = router.into_service();

    let res = simulate_echo(&svc, "/x/anything", Method::Get);
    assert_eq!(res.status, 400);
}

#[test]
fn catch_all_captures_tail() {
    let mut router: Server<(), EchoParamEndpoint, tide::middleware::TagMiddleware> = Server::new();
    let r = router.at("/static/*path");
    r.get(&mut router, EchoParamEndpoint { name: "path".to_string() }).unwrap();
    let svc = router.into_service();

    let res = simulate_echo(&svc, "/static/a/b/c", Method::Get);
    assert_eq!(res.status, 200);
    assert_eq!(res.body, "a/b/c");

    let one = simulate_echo(&svc, "/static/a", Method::Get);
    assert_eq!(one.body, "a");

    let zero = simulate_echo(&svc, "/static", Method::Get);
    assert_eq!(zero.status, 200);
    assert_eq!(zero.body, "");
}

#[test]
fn precedence_concrete_over_wildcard_over_catch_all() {
    let mut router: App = Server::new();
    let r = router.at("/p/exact");
    r.get(&mut router, text("concrete")).unwrap();
    let r = router.at("/p/:x");
    r.get(&mut router, text("wildcard")).unwrap();
    let r = router.at("/p/*rest");
    r.get(&mut router, text("catchall")).unwrap();
    let svc = router.into_service();

    assert_eq!(simulate(&svc, "/p/exact", Method::Get).body, "concrete");
    assert_eq!(simulate(&svc, "/p/other", Method::Get).body, "wildcard");
    // The choice at each node is committed: with a segment left the wildcard
    // child wins, and a dead end below it is a plain no-route.
    assert_eq!(simulate(&svc, "/p/a/b", Method::Get).status, 404);
    // The catch-all child serves the empty remainder at its node.
    assert_eq!(simulate(&svc, "/p", Method::Get).body, "catchall");
}

#[test]
fn duplicate_registration_is_refused() {
    let mut router: App = Server::new();
    let r = router.at("/dup");
    r.get(&mut router, text("first")).unwrap();
    let r = router.at("/dup");
    let err = r.get(&mut router, text("second")).unwrap_err();
    assert_eq!(err, RouteError::Occupied);

    let svc = router.into_service();
    assert_eq!(simulate(&svc, "/dup", Method::Get).body, "first");
}

#[test]
fn wildcard_name_clash_is_refused() {
    let mut router: App = Server::new();
    let r = router.at("/w/:foo");
    r.get(&mut router, text("foo")).unwrap();
    let r = router.at("/w/:bar");
    let err = r.post(&mut router, text("bar")).unwrap_err();
    assert_eq!(err, RouteError::NameClash);
}

#[test]
fn registration_order_does_not_change_matching() {
    let routes: [(&str, &str); 4] =
        [("/a", "A"), ("/a/:x", "AX"), ("/b/*t", "BT"), ("/a/b", "AB")];
    let paths = ["/", "/a", "/a/b", "/a/c", "/b", "/b/x/y", "/c"];

    let mut one: App = Server::new();
    for (p, body) in routes.iter() {
        let r = one.at(p);
        r.get(&mut one, text(body)).unwrap();
    }
    let one = one.into_service();

    let mut two: App = Server::new();
    for (p, body) in routes.iter().rev() {
        let r = two.at(p);
        r.get(&mut two, text(body)).unwrap();
    }
    let two = two.into_service();

    for path in paths.iter() {
        let ra = simulate(&one, path, Method::Get);
        let rb = simulate(&two, path, Method::Get);
        assert_eq!(ra.status, rb.status);
        assert_eq!(ra.body, rb.body);
    }
}

#[test]
fn nesting_is_associative() {
    let mut direct: App = Server::new();
    let r = direct.at("/b/c/a");
    r.get(&mut direct, text("/b/c/a")).unwrap();
    let direct = direct.into_service();

    let mut nested: App = Server::new();
    let b = nested.at("/b");
    let c = b.at("/c");
    let r = c.at("/a");
    r.get(&mut nested, text("/b/c/a")).unwrap();
    let nested = nested.into_service();

    for path in &["/b/c/a", "/b/c", "/b", "/", "/b/c/a/d"] {
        let rd = simulate(&direct, path, Method::Get);
        let rn = simulate(&nested, path, Method::Get);
        assert_eq!(rd.status, rn.status);
        assert_eq!(rd.body, rn.body);
    }
    assert_eq!(simulate(&direct, "/b/c/a", Method::Get).body, "/b/c/a");
}

#[test]
fn all_seven_methods_have_independent_slots() {
    let mut router: App = Server::new();
    let methods = [
        (Method::Get, "get"),
        (Method::Post, "post"),
        (Method::Put, "put"),
        (Method::Delete, "delete"),
        (Method::Patch, "patch"),
        (Method::Head, "head"),
        (Method::Options, "options"),
    ];
    for (m, body) in methods.iter() {
        let r = router.at("/m");
        r.method(&mut router, *m, text(body)).unwrap();
    }
    let svc = router.into_service();
    for (m, body) in methods.iter() {
        let res = simulate(&svc, "/m", *m);
        assert_eq!(res.body, *body);
    }
}

#[test]
fn empty_segments_are_dropped() {
    let mut router: App = Server::new();
    let r = router.at("/foo/bar");
    r.get(&mut router, text("fb")).unwrap();
    let svc = router.into_service();

    assert_eq!(simulate(&svc, "//foo///bar/", Method::Get).body, "fb");
    assert_eq!(simulate(&svc, "foo/bar", Method::Get).body, "fb");
}

#[test]
fn static_sibling_is_not_found() {
    let mut router: App = Server::new();
    let r = router.at("/");
    r.get(&mut router, text("/")).unwrap();
    let r = router.at("/foo");
    r.get(&mut router, text("/foo")).unwrap();
    let r = router.at("/foo/bar");
    r.get(&mut router, text("/foo/bar")).unwrap();
    let svc = router.into_service();

    assert_eq!(simulate(&svc, "/foo/bar", Method::Get).body, "/foo/bar");
    assert_eq!(simulate(&svc, "/foo/baz", Method::Get).status, 404);
}

#[test]
fn nested_trees_and_unregistered_paths() {
    let mut router: App = Server::new();
    let b = router.at("/b");
    {
        let r = b.at("/");
        r.get(&mut router, text("/b")).unwrap();
        let r = b.at("/a");
        r.get(&mut router, text("/b/a")).unwrap();
        let r = b.at("/b");
        r.get(&mut router, text("/b/b")).unwrap();
    }
    let bc = router.at("/b/c");
    {
        let r = bc.at("/a");
        r.get(&mut router, text("/b/c/a")).unwrap();
        let r = bc.at("/b");
        r.get(&mut router, text("/b/c/b")).unwrap();
    }
    let r = router.at("/b/d");
    r.get(&mut router, text("/b/d")).unwrap();
    let svc = router.into_service();

    assert_eq!(simulate(&svc, "/b/c/a", Method::Get).body, "/b/c/a");
    assert_eq!(simulate(&svc, "/b", Method::Get).body, "/b");
    assert_eq!(simulate(&svc, "/a/b", Method::Get).status, 404);
}

#[test]
fn handlers_see_the_shared_state() {
    let mut router: Server<String, StateEndpoint, tide::middleware::TagMiddleware> =
        Server::with_state("shared words".to_string());
    let r = router.at("/state");
    r.get(&mut router, StateEndpoint {}).unwrap();
    let svc = router.into_service();

    let res = svc.respond(request("/state", Method::Get));
    assert_eq!(res.status, 200);
    assert_eq!(res.body, "shared words");
}

#[test]
fn cloned_services_answer_alike() {
    let mut router: App = Server::new();
    let r = router.at("/c");
    r.get(&mut router, text("clone me")).unwrap();
    let svc = router.into_service();
    let twin = svc.clone();

    let a = simulate(&svc, "/c", Method::Get);
    let b = simulate(&twin, "/c", Method::Get);
    assert_eq!(a.status, b.status);
    assert_eq!(a.body, b.body);
    assert_eq!(b.body, "clone me");
}

#[test]
fn non_ascii_segments_route_and_capture() {
    let mut router: Server<(), EchoParamEndpoint, tide::middleware::TagMiddleware> = Server::new();
    let r = router.at("/grüße/:wer");
    r.get(&mut router, EchoParamEndpoint { name: "wer".to_string() }).unwrap();
    let svc = router.into_service();

    let res = simulate_echo(&svc, "/grüße/wörld", Method::Get);
    assert_eq!(res.status, 200);
    assert_eq!(res.body, "wörld");
}
