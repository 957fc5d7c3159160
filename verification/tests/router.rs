use brio::request::{HeaderField, RequestHead};
use brio::response::ResponseHead;
use brio::{App, Files, Layer, Method, Next, Path, Request, Response, Router, Status};

type Middleware = fn(&mut Request);

fn parse_request(raw: &[u8]) -> Request {
    let mut headers = [httparse::EMPTY_HEADER; 16];
    let mut parsed = httparse::Request::new(&mut headers);
    assert!(parsed.parse(raw).unwrap().is_complete());
    let head = RequestHead {
        method: parsed.method.map(|m| m.to_owned()),
        path: parsed.path.map(|p| p.to_owned()),
        version: parsed.version,
        headers: parsed
            .headers
            .iter()
            .map(|h| HeaderField { name: h.name.to_owned(), value: h.value.to_vec() })
            .collect(),
    };
    Request::try_from_parser(head).unwrap()
}

fn parse_reply(raw: &[u8]) -> Response {
    let mut headers = [httparse::EMPTY_HEADER; 16];
    let mut parsed = httparse::Response::new(&mut headers);
    assert!(parsed.parse(raw).unwrap().is_complete());
    let head = ResponseHead {
        version: parsed.version,
        code: parsed.code,
        reason: parsed.reason.map(|r| r.to_owned()),
        headers: parsed
            .headers
            .iter()
            .map(|h| HeaderField { name: h.name.to_owned(), value: h.value.to_vec() })
            .collect(),
    };
    match Response::from_parser(head) {
        Ok(r) => r,
        Err(_) => panic!("response head refused"),
    }
}

fn apply(req: &mut Request, f: fn(u32) -> u32) {
    let value = req.headers().get("math").and_then(|v| v.parse::<u32>().ok());
    if let Some(v) = value {
        req.headers_mut().insert("math".to_owned(), f(v).to_string());
    }
}

fn logger(req: &mut Request) {
    req.headers_mut().insert("foo".to_owned(), "bar".to_owned());
}

fn add(req: &mut Request) {
    apply(req, |v| v + 4);
}

fn multiply(req: &mut Request) {
    apply(req, |v| v * 4);
}

fn exponentiate(req: &mut Request) {
    apply(req, |v| v.pow(4));
}

fn math_app() -> Router<(), &'static str, Middleware> {
    let mut app: App<(), &'static str, Middleware> = App::new("not found");
    app.post("/foo", "handler");
    app.get("/add/echo", "math");
    app.get("/multiply/echo", "math");
    app.get("/math/echo", "math");
    app.post("/math/echo", "math");
    app.get("/echo", "math");
    app.middleware("*", logger);
    app.files("/public/", "./examples/static/");
    app.middleware("/math", add);
    app.middleware("/math", multiply);
    app.post_middleware("/math", exponentiate);
    app.middleware("/add", add);
    app.middleware("/multiply", multiply);
    app.middleware("/exponentiate", exponentiate);
    app.into_router()
}

/// Passes a request through the middleware to its handler and answers as
/// the `math` handler does: the `math` field copied into the response.
fn serve(router: &Router<(), &'static str, Middleware>, raw: &[u8]) -> Response {
    let req = parse_request(raw);
    let mut ctx = router.dispatch(req);
    let (handler, mut req) = loop {
        match ctx.next() {
            Next::Layer(Layer::Handler(f), mut next) => {
                f(next.req_mut());
                ctx = next;
            }
            Next::Layer(Layer::Files(_), _) => panic!("no file is asked for"),
            Next::Route(h, req) => break (h, req),
        }
    };
    assert_eq!(*handler, "math");
    assert_eq!(req.headers().get("foo").unwrap(), "bar");
    let mut res = Response::with_status(Status::OK);
    if let Some(v) = req.headers().get("math") {
        res.headers_mut().insert("math".to_owned(), v.to_owned());
    }
    parse_reply(&res.into_bytes())
}

#[test]
fn math() {
    let router = math_app();
    let res = serve(
        &router,
        b"GET /echo HTTP/1.1\r\nHost: localhost:8000\r\nContent-Type: application/json\r\nMath: 1\r\nContent-Length: 0\r\n\r\n",
    );
    assert_eq!(res.headers().get(&"math".to_owned()).unwrap().to_owned(), "1".to_owned());
    assert_eq!(res.headers().get("content-type"), None);

    let res = serve(
        &router,
        b"GET /add/echo HTTP/1.1\r\nHost: localhost:8000\r\nContent-Type: application/json\r\nMath: 1\r\nContent-Length: 0\r\n\r\n",
    );
    assert_eq!(res.headers().get(&"math".to_owned()).unwrap().to_owned(), "5".to_owned());
    assert_eq!(res.headers().get("content-type"), None);

    let res = serve(
        &router,
        b"GET /multiply/echo HTTP/1.1\r\nHost: localhost:8000\r\nContent-Type: application/json\r\nMath: 1\r\nContent-Length: 0\r\n\r\n",
    );
    assert_eq!(res.headers().get(&"math".to_owned()).unwrap().to_owned(), "4".to_owned());
    assert_eq!(res.headers().get("content-type"), None);

    let res = serve(
        &router,
        b"GET /math/echo HTTP/1.1\r\nHost: localhost:8000\r\nContent-Type: application/json\r\nMath: 1\r\nContent-Length: 0\r\n\r\n",
    );
    assert_eq!(res.headers().get(&"math".to_owned()).unwrap().to_owned(), "20".to_owned());
    assert_eq!(res.headers().get("content-type"), None);

    let res = serve(
        &router,
        b"POST /math/echo HTTP/1.1\r\nHost: localhost:8000\r\nContent-Type: application/json\r\nMath: 1\r\nContent-Length: 0\r\n\r\n",
    );
    assert_eq!(res.headers().get(&"math".to_owned()).unwrap().to_owned(), "160000".to_owned());
    assert_eq!(res.headers().get("content-type"), None);
}

#[test]
fn path_contains_rules() {
    let req = Path::new(Method::Get, "/math/echo".to_owned());
    assert!(req.contains(&Path::all("*".to_owned())));
    assert!(req.contains(&Path::all("/math".to_owned())));
    assert!(req.contains(&Path::new(Method::Get, "/math".to_owned())));
    assert!(!req.contains(&Path::new(Method::Post, "/math".to_owned())));
    assert!(!req.contains(&Path::new(Method::Post, "*".to_owned())));
    assert!(!req.contains(&Path::all("/add".to_owned())));
    assert!(req.contains(&Path::all("".to_owned())));
    let any = Path::all("/x".to_owned());
    assert_eq!(*any.method(), None);
    assert!(any.contains(&Path::new(Method::Put, "/".to_owned())));
}

#[test]
fn later_route_replaces_earlier() {
    let mut app: App<(), u32, ()> = App::new(0);
    app.get("/a", 1);
    app.post("/a", 2);
    app.get("/b", 3);
    app.get("/a", 4);
    app.put("/c", 5);
    app.delete("/c", 6);
    let router = app.into_router();
    assert_eq!(router.route_for(&Path::new(Method::Get, "/a".to_owned())), Some(&4));
    assert_eq!(router.route_for(&Path::new(Method::Post, "/a".to_owned())), Some(&2));
    assert_eq!(router.route_for(&Path::new(Method::Get, "/b".to_owned())), Some(&3));
    assert_eq!(router.route_for(&Path::new(Method::Put, "/c".to_owned())), Some(&5));
    assert_eq!(router.route_for(&Path::new(Method::Delete, "/c".to_owned())), Some(&6));
    assert_eq!(router.route_for(&Path::new(Method::Get, "/c".to_owned())), None);
    assert!(router.middleware().is_empty());
}

#[test]
fn middleware_order_and_methods() {
    let mut app: App<(), (), u32> = App::new(());
    app.middleware("*", 1);
    app.get_middleware("/x", 2);
    app.post_middleware("/x", 3);
    app.put_middleware("/x", 4);
    app.delete_middleware("/x", 5);
    app.middleware("/x/y", 6);
    app.get("/x/y/z", ());
    let router = app.into_router();
    let req = parse_request(b"GET /x/y/z HTTP/1.1\r\n\r\n");
    let mut ctx = router.dispatch(req);
    let mut seen = Vec::new();
    loop {
        match ctx.next() {
            Next::Layer(Layer::Handler(n), next) => {
                seen.push(*n);
                ctx = next;
            }
            Next::Layer(Layer::Files(_), _) => panic!("no files here"),
            Next::Route(_, _) => break,
        }
    }
    assert_eq!(seen, vec![1, 2, 6]);
}

#[test]
fn files_mount_and_path() {
    let files = Files::new("/public/", "./examples/static/");
    assert_eq!(files.path, "/public/");
    assert_eq!(files.src, "./examples/static/");
    assert_eq!(files.file_path("/public/index.html"), "./examples/static/index.html");
    assert_eq!(files.file_path("/other"), "./examples/static//other");
    let mut app: App<(), &'static str, ()> = App::new("not found");
    app.files("/public/", "./examples/static/");
    let router = app.into_router();
    let req = parse_request(b"GET /public/index.html HTTP/1.1\r\nContent-Length: 0\r\n\r\n");
    let ctx = router.dispatch(req);
    match ctx.next() {
        Next::Layer(Layer::Files(f), next) => {
            assert_eq!(f.file_path(next.req().route().path()), "./examples/static/index.html");
            match next.next() {
                Next::Route(h, _) => assert_eq!(*h, "not found"),
                _ => panic!("only the files layer covers the request"),
            }
        }
        _ => panic!("the files layer covers the request"),
    }
}

#[test]
fn unrouted_request_passes_middleware_to_not_found() {
    let mut app: App<(), &'static str, Middleware> = App::new("not found");
    app.get("/echo", "math");
    app.middleware("*", logger);
    app.post_middleware("*", add);
    let router = app.into_router();
    let req = parse_request(b"GET /nowhere HTTP/1.1\r\nMath: 1\r\n\r\n");
    let mut ctx = router.dispatch(req);
    let (handler, mut req) = loop {
        match ctx.next() {
            Next::Layer(Layer::Handler(f), mut next) => {
                f(next.req_mut());
                ctx = next;
            }
            Next::Layer(Layer::Files(_), _) => panic!("no files here"),
            Next::Route(h, req) => break (h, req),
        }
    };
    assert_eq!(*handler, "not found");
    assert_eq!(req.headers().get("foo").unwrap(), "bar");
    assert_eq!(req.headers().get("math").unwrap(), "1");
    let req = parse_request(b"GET /echo HTTP/1.1\r\n\r\n");
    match router.dispatch(req).next() {
        Next::Layer(_, next) => match next.next() {
            Next::Route(h, _) => assert_eq!(*h, "math"),
            _ => panic!("one layer covers the request"),
        },
        _ => panic!("the logger covers the request"),
    }
}

#[test]
fn found_file_answers() {
    let res = Files::found("/srv/static/index.html", b"<h1>hello world</h1>".to_vec());
    assert_eq!(res.status(), Status::OK);
    assert_eq!(res.headers().get("content-type").unwrap(), "text/html");
    assert_eq!(res.headers().len(), 1);
    assert_eq!(res.bytes().as_slice(), b"<h1>hello world</h1>");
    assert!(res.stream.is_none());
    let res = Files::found("/srv/static/data.json", b"{}".to_vec());
    assert!(res.headers().is_empty());
    assert_eq!(res.bytes().as_slice(), b"{}");
    let res = Files::found("html", Vec::new());
    assert!(res.headers().is_empty());
}
