use tide::http::Request;
use tide::method::Method;
use tide::middleware::{EitherMiddleware, GateMiddleware, HeaderListEndpoint, TagMiddleware};
use tide::service::{Server, Service};

fn request(path: &str, method: Method) -> Request {
    Request { method, path: path.to_string(), headers: Vec::new(), body: String::new() }
}

type Unit = EitherMiddleware<TagMiddleware, GateMiddleware>;

fn tag(label: &str) -> Unit {
    EitherMiddleware::First(TagMiddleware { label: label.to_string() })
}

fn gate(body: &str) -> Unit {
    EitherMiddleware::Second(GateMiddleware { body: body.to_string() })
}

fn serve(mws: Vec<Unit>) -> Service<(), HeaderListEndpoint, Unit> {
    let mut server: Server<(), HeaderListEndpoint, Unit> = Server::new();
    let r = server.at("/t");
    r.get(&mut server, HeaderListEndpoint {}).unwrap();
    for m in mws {
        server.middleware(m);
    }
    server.into_service()
}

#[test]
fn middleware_runs_in_order_and_unwinds_in_reverse() {
    let svc = serve(vec![tag("a"), tag("b")]);
    let res = svc.respond(request("/t", Method::Get));
    assert_eq!(res.status, 200);
    assert_eq!(res.body, "a/b|b|a");
}

#[test]
fn middleware_wraps_routing_failures_too() {
    let svc = serve(vec![tag("a")]);
    let res = svc.respond(request("/missing", Method::Get));
    assert_eq!(res.status, 404);
    assert_eq!(res.body, "|a");
}

#[test]
fn short_circuit_skips_downstream_and_handler() {
    let svc = serve(vec![
        tag("a"),
        gate("stop"),
        tag("c"),
    ]);
    let res = svc.respond(request("/t", Method::Get));
    assert_eq!(res.status, 403);
    assert_eq!(res.body, "stop|a");
}
