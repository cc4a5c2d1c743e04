use rums::add_route;
use rums::get_route;
use rums::HandleError;
use rums::RouteHandler;
use rums::ServerHandler;

struct Echo {
    tag: &'static str,
    calls: usize,
}

impl ServerHandler for Echo {
    fn handle(&mut self, request: &[u8]) -> Result<Vec<u8>, HandleError> {
        self.calls += 1;
        let mut out = Vec::from(self.tag.as_bytes());
        out.push(b':');
        out.extend_from_slice(request);
        Ok(out)
    }
}

struct Failing;

impl ServerHandler for Failing {
    fn handle(&mut self, _request: &[u8]) -> Result<Vec<u8>, HandleError> {
        Err(HandleError::Failed(String::from("broken")))
    }
}

#[test]
fn add_route_puts_route_and_zero_in_front() {
    let data = add_route(Vec::from("hello, world!"), "world");
    assert_eq!(data, b"world\0hello, world!".to_vec());
    let data = add_route(data, "hello");
    assert_eq!(data, b"hello\0world\0hello, world!".to_vec());
}

#[test]
fn add_route_with_empty_payload_and_route() {
    assert_eq!(add_route(vec![], ""), vec![0u8]);
    assert_eq!(add_route(vec![1, 2], ""), vec![0u8, 1, 2]);
}

#[test]
fn get_route_reads_the_first_route() {
    let data = b"hello\0world\0payload".to_vec();
    let (rest, route) = get_route(&data);
    assert_eq!(route, "hello");
    assert_eq!(rest, b"world\0payload");
    let (rest, route) = get_route(rest);
    assert_eq!(route, "world");
    assert_eq!(rest, b"payload");
}

#[test]
fn get_route_without_zero_byte_gives_whole_request() {
    let data = b"no route here".to_vec();
    let (rest, route) = get_route(&data);
    assert_eq!(route, "");
    assert_eq!(rest, &data[..]);
    let (rest, route) = get_route(&[]);
    assert_eq!(route, "");
    assert_eq!(rest, b"");
}

#[test]
fn get_route_with_invalid_utf8_gives_whole_request() {
    let data = vec![0xffu8, 0xfe, 0, 1, 2];
    let (rest, route) = get_route(&data);
    assert_eq!(route, "");
    assert_eq!(rest, &data[..]);
}

#[test]
fn get_route_with_empty_route() {
    let data = vec![0u8, 7, 8];
    let (rest, route) = get_route(&data);
    assert_eq!(route, "");
    assert_eq!(rest, &[7u8, 8][..]);
}

#[test]
fn get_route_undoes_add_route() {
    for route in ["", "a", "héllo", "日本語", "route with spaces"] {
        let payload = vec![0u8, 1, 0, 255];
        let framed = add_route(payload.clone(), route);
        let (rest, got) = get_route(&framed);
        assert_eq!(got, route);
        assert_eq!(rest, &payload[..]);
    }
}

#[test]
fn get_route_of_route_with_nul_splits_inside_it() {
    let framed = add_route(vec![9u8], "a\0b");
    let (rest, route) = get_route(&framed);
    assert_eq!(route, "a");
    assert_eq!(rest, b"b\0\x09");
}

#[test]
fn route_handler_passes_request_to_handler() {
    let mut router = RouteHandler::new();
    router.add_route("echo", Box::new(Echo { tag: "e", calls: 0 }));
    let res = router.handle(&add_route(b"hi".to_vec(), "echo"));
    match res {
        Ok(v) => assert_eq!(v, b"e:hi".to_vec()),
        Err(_) => panic!("expected an answer"),
    }
}

#[test]
fn route_handler_passes_request_through_sub_routes() {
    let mut router = RouteHandler::new();
    router.sub_route("hello").add_route("world", Box::new(Echo { tag: "w", calls: 0 }));
    let data = add_route(add_route(Vec::from("hello, world!"), "world"), "hello");
    match router.handle(&data) {
        Ok(v) => assert_eq!(v, b"w:hello, world!".to_vec()),
        Err(_) => panic!("expected an answer"),
    }
}

#[test]
fn route_handler_refuses_unknown_route() {
    let mut router = RouteHandler::new();
    router.add_route("echo", Box::new(Echo { tag: "e", calls: 0 }));
    match router.handle(&add_route(b"x".to_vec(), "other")) {
        Err(HandleError::UnhandledRoute(r)) => assert_eq!(r, "other"),
        _ => panic!("expected an unhandled route"),
    }
    match router.handle(b"no route") {
        Err(HandleError::UnhandledRoute(r)) => assert_eq!(r, ""),
        _ => panic!("expected an unhandled route"),
    }
}

#[test]
fn route_handler_refuses_unknown_route_in_sub_router() {
    let mut router = RouteHandler::new();
    router.sub_route("pkg").add_route("svc", Box::new(Echo { tag: "s", calls: 0 }));
    let data = add_route(add_route(b"m".to_vec(), "missing"), "pkg");
    match router.handle(&data) {
        Err(HandleError::UnhandledRoute(r)) => assert_eq!(r, "missing"),
        _ => panic!("expected an unhandled route"),
    }
}

#[test]
fn route_handler_prefers_handler_over_sub_router() {
    let mut router = RouteHandler::new();
    router.sub_route("x").add_route("y", Box::new(Echo { tag: "sub", calls: 0 }));
    router.add_route("x", Box::new(Echo { tag: "top", calls: 0 }));
    let data = add_route(add_route(b"p".to_vec(), "y"), "x");
    match router.handle(&data) {
        Ok(v) => assert_eq!(v, b"top:y\0p".to_vec()),
        Err(_) => panic!("expected an answer"),
    }
}

#[test]
fn route_handler_keeps_first_handler_of_a_route() {
    let mut router = RouteHandler::new();
    router.add_route("r", Box::new(Echo { tag: "first", calls: 0 }));
    router.add_route("r", Box::new(Echo { tag: "second", calls: 0 }));
    match router.handle(&add_route(b"q".to_vec(), "r")) {
        Ok(v) => assert_eq!(v, b"first:q".to_vec()),
        Err(_) => panic!("expected an answer"),
    }
}

#[test]
fn route_handler_passes_on_handler_failure() {
    let mut router = RouteHandler::new();
    router.add_route("f", Box::new(Failing));
    match router.handle(&add_route(b"q".to_vec(), "f")) {
        Err(HandleError::Failed(m)) => assert_eq!(m, "broken"),
        _ => panic!("expected the handler's failure"),
    }
}

#[test]
fn route_handler_get_route_finds_registered_handler() {
    let mut router = RouteHandler::new();
    assert!(router.get_route("a").is_none());
    router.add_route("a", Box::new(Echo { tag: "a", calls: 0 }));
    let h = router.get_route("a").expect("registered");
    match h.handle(b"z") {
        Ok(v) => assert_eq!(v, b"a:z".to_vec()),
        Err(_) => panic!("expected an answer"),
    }
    assert!(router.get_route("b").is_none());
}

#[test]
fn route_handler_sub_route_is_reused() {
    let mut router = RouteHandler::new();
    router.sub_route("p").add_route("one", Box::new(Echo { tag: "1", calls: 0 }));
    router.sub_route("p").add_route("two", Box::new(Echo { tag: "2", calls: 0 }));
    match router.handle(&add_route(add_route(b"x".to_vec(), "one"), "p")) {
        Ok(v) => assert_eq!(v, b"1:x".to_vec()),
        Err(_) => panic!("expected an answer"),
    }
    match router.handle(&add_route(add_route(b"x".to_vec(), "two"), "p")) {
        Ok(v) => assert_eq!(v, b"2:x".to_vec()),
        Err(_) => panic!("expected an answer"),
    }
}

#[test]
fn route_handler_add_route_returns_the_kept_handler() {
    let mut router = RouteHandler::new();
    router.add_route("r", Box::new(Echo { tag: "first", calls: 0 }));
    let kept = router.add_route("r", Box::new(Echo { tag: "second", calls: 0 }));
    match kept.handle(b"k") {
        Ok(v) => assert_eq!(v, b"first:k".to_vec()),
        Err(_) => panic!("expected an answer"),
    }
}

#[test]
fn route_handler_clone_has_no_routes() {
    let mut router = RouteHandler::new();
    router.add_route("a", Box::new(Echo { tag: "a", calls: 0 }));
    let mut copy = router.clone();
    match copy.handle(&add_route(b"x".to_vec(), "a")) {
        Err(HandleError::UnhandledRoute(r)) => assert_eq!(r, "a"),
        _ => panic!("a clone holds no routes"),
    }
}

#[test]
fn unhandled_route_message() {
    let e = HandleError::UnhandledRoute(String::from("abc"));
    assert_eq!(e.message(), "unhandled route: abc");
    let e = HandleError::Failed(String::from("oops"));
    assert_eq!(e.message(), "oops");
}

#[test]
fn add_route_undoes_get_route() {
    let data = b"svc\0method\0body".to_vec();
    let (rest, route) = get_route(&data);
    assert_eq!(add_route(rest.to_vec(), route), data);
}

#[test]
fn new_router_refuses_every_request() {
    let mut router = RouteHandler::new();
    for req in [b"plain".to_vec(), add_route(b"x".to_vec(), "a"), vec![], vec![0u8]] {
        match router.handle(&req) {
            Err(HandleError::UnhandledRoute(r)) => assert_eq!(r, get_route(&req).1),
            _ => panic!("a router without routes refuses"),
        }
    }
}

#[test]
fn route_handler_calls_reached_handler_once_with_payload() {
    struct Counting {
        seen: std::sync::Arc<std::sync::Mutex<Vec<Vec<u8>>>>,
    }
    impl ServerHandler for Counting {
        fn handle(&mut self, request: &[u8]) -> Result<Vec<u8>, HandleError> {
            self.seen.lock().unwrap().push(request.to_vec());
            Ok(b"hi from server 3".to_vec())
        }
    }
    let seen = std::sync::Arc::new(std::sync::Mutex::new(Vec::new()));
    let mut router = RouteHandler::new();
    router.sub_route("hello").add_route("world", Box::new(Counting { seen: seen.clone() }));
    match router.handle(b"hello\0world\0hello, world!") {
        Ok(v) => assert_eq!(v, b"hi from server 3".to_vec()),
        Err(_) => panic!("expected an answer"),
    }
    assert_eq!(*seen.lock().unwrap(), vec![b"hello, world!".to_vec()]);
}

#[test]
fn route_names_stay_unique() {
    let mut router = RouteHandler::new();
    router.add_route("a", Box::new(Echo { tag: "1", calls: 0 }));
    router.add_route("a", Box::new(Echo { tag: "2", calls: 0 }));
    router.sub_route("s");
    router.sub_route("s");
    assert_eq!(router.handlers.len(), 1);
    assert_eq!(router.subhandlers.len(), 1);
}
