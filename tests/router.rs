use http_router::{Method, ParamKind, ParamValue, Route, RouteTable, Segment, Selection};

type Handler<R> = Box<dyn Fn(&(), &[ParamValue]) -> R>;

fn lit(s: &str) -> Segment {
    Segment::Literal(s.to_string())
}

fn param(name: &str, kind: ParamKind) -> Segment {
    Segment::Param(name.to_string(), kind)
}

fn route<R>(method: Method, segments: Vec<Segment>, h: Handler<R>) -> Route<Handler<R>> {
    Route::new(method, segments, h)
}

fn call<R>(table: &RouteTable<Handler<R>>, ctx: (), method: Method, path: &str) -> R {
    match table.dispatch(method, path) {
        Selection::Route { handler, args } => handler(&ctx, &args),
        Selection::Fallback { handler } => handler(&ctx, &[]),
    }
}

fn uint(v: &ParamValue) -> u64 {
    match v {
        ParamValue::Unsigned(n) => *n,
        _ => panic!("not an unsigned value"),
    }
}

fn text(v: &ParamValue) -> String {
    match v {
        ParamValue::Text(s) => s.clone(),
        _ => panic!("not a text value"),
    }
}

fn named(name: &'static str) -> Handler<String> {
    Box::new(move |_: &(), _: &[ParamValue]| name.to_string())
}

#[test]
fn test_real_life() {
    let users = || lit("users");
    let tx = || lit("transactions");
    let id = || param("user_id", ParamKind::Unsigned);
    let hash = || param("hash", ParamKind::Text);
    let routes = vec![
        route(Method::GET, vec![], named("get_users")),
        route(Method::GET, vec![users()], named("get_users")),
        route(Method::POST, vec![users()], named("post_users")),
        route(Method::PATCH, vec![users(), id()], Box::new(|_: &(), a: &[ParamValue]| format!("patch_users({})", uint(&a[0])))),
        route(Method::DELETE, vec![users(), id()], Box::new(|_: &(), a: &[ParamValue]| format!("delete_users({})", uint(&a[0])))),
        route(Method::GET, vec![users(), id(), tx()], Box::new(|_: &(), a: &[ParamValue]| format!("get_transactions({})", uint(&a[0])))),
        route(Method::POST, vec![users(), id(), tx()], Box::new(|_: &(), a: &[ParamValue]| format!("post_transactions({})", uint(&a[0])))),
        route(Method::PATCH, vec![users(), id(), tx(), hash()], Box::new(|_: &(), a: &[ParamValue]| format!("patch_transactions({}, {})", uint(&a[0]), text(&a[1])))),
        route(Method::DELETE, vec![users(), id(), tx(), hash()], Box::new(|_: &(), a: &[ParamValue]| format!("delete_transactions({}, {})", uint(&a[0]), text(&a[1])))),
    ];
    let table = RouteTable::build(routes, named("404")).unwrap();
    let test_cases = [
        (Method::GET, "/", "get_users"),
        (Method::GET, "/users", "get_users"),
        (Method::POST, "/users", "post_users"),
        (Method::PATCH, "/users/12", "patch_users(12)"),
        (Method::DELETE, "/users/132134", "delete_users(132134)"),
        (Method::GET, "/users/534/transactions", "get_transactions(534)"),
        (Method::POST, "/users/534/transactions", "post_transactions(534)"),
        (Method::PATCH, "/users/534/transactions/0x234", "patch_transactions(534, 0x234)"),
        (Method::DELETE, "/users/534/transactions/0x234", "delete_transactions(534, 0x234)"),
        (Method::DELETE, "/users/5d34/transactions/0x234", "404"),
        (Method::POST, "/users/534/transactions/0x234", "404"),
        (Method::GET, "/u", "404"),
        (Method::POST, "/", "404"),
    ];
    for (method, path, expected) in test_cases.iter() {
        assert_eq!(call(&table, (), *method, path), expected.to_string());
    }
    // The same table answers the same way when asked again.
    for (method, path, expected) in test_cases.iter().rev() {
        assert_eq!(call(&table, (), *method, path), expected.to_string());
    }
}

#[test]
fn test_home() {
    let routes = vec![route(Method::GET, vec![], Box::new(|_: &(), _: &[ParamValue]| "get_home"))];
    let unreachable: Handler<&'static str> = Box::new(|_: &(), _: &[ParamValue]| unreachable!());
    let table = RouteTable::build(routes, unreachable).unwrap();
    assert_eq!(call(&table, (), Method::GET, "/"), "get_home");
}

#[test]
fn test_fallback() {
    let routes = vec![
        route(Method::GET, vec![], named("home")),
        route(Method::POST, vec![lit("users")], named("users")),
    ];
    let table = RouteTable::build(routes, named("fallback")).unwrap();
    assert_eq!(call(&table, (), Method::GET, "/"), "home");
    assert_eq!(call(&table, (), Method::POST, "/users"), "users");
    assert_eq!(call(&table, (), Method::GET, "/users"), "fallback");
    assert_eq!(call(&table, (), Method::GET, "/us"), "fallback");
    assert_eq!(call(&table, (), Method::PATCH, "/"), "fallback");
}

#[test]
fn test_verbs() {
    let verbs = [
        Method::GET,
        Method::POST,
        Method::PUT,
        Method::PATCH,
        Method::DELETE,
        Method::OPTIONS,
        Method::CONNECT,
        Method::TRACE,
        Method::HEAD,
    ];
    let mut routes: Vec<Route<Handler<Method>>> = Vec::new();
    for m in verbs.iter() {
        let m = *m;
        routes.push(route(m, vec![lit("users")], Box::new(move |_: &(), _: &[ParamValue]| m)));
    }
    let panic_test: Handler<Method> = Box::new(|_: &(), _: &[ParamValue]| unreachable!());
    let table = RouteTable::build(routes, panic_test).unwrap();

    assert_eq!(call(&table, (), Method::GET, "/users"), Method::GET);
    assert_eq!(call(&table, (), Method::POST, "/users"), Method::POST);
    assert_eq!(call(&table, (), Method::PUT, "/users"), Method::PUT);
    assert_eq!(call(&table, (), Method::PATCH, "/users"), Method::PATCH);
    assert_eq!(call(&table, (), Method::DELETE, "/users"), Method::DELETE);
    assert_eq!(call(&table, (), Method::OPTIONS, "/users"), Method::OPTIONS);
    assert_eq!(call(&table, (), Method::TRACE, "/users"), Method::TRACE);
    assert_eq!(call(&table, (), Method::CONNECT, "/users"), Method::CONNECT);
    assert_eq!(call(&table, (), Method::HEAD, "/users"), Method::HEAD);
}

#[test]
fn test_params_number() {
    let concat: fn(&(), &[ParamValue]) -> String =
        |_: &(), a: &[ParamValue]| a.iter().map(text).collect::<Vec<String>>().concat();
    let mut routes: Vec<Route<Handler<String>>> = Vec::new();
    let mut segs: Vec<Segment> = vec![lit("users")];
    routes.push(route(Method::GET, segs.clone(), Box::new(concat)));
    for n in 1..=7 {
        if n > 1 {
            segs.push(lit(&format!("users{}", n)));
        }
        segs.push(param(&format!("p{}", n), ParamKind::Text));
        routes.push(route(Method::GET, segs.clone(), Box::new(concat)));
    }
    let unreachable: Handler<String> = Box::new(|_: &(), _: &[ParamValue]| unreachable!());
    let table = RouteTable::build(routes, unreachable).unwrap();

    assert_eq!(call(&table, (), Method::GET, "/users"), "");
    assert_eq!(call(&table, (), Method::GET, "/users/id1"), "id1");
    assert_eq!(call(&table, (), Method::GET, "/users/id1/users2/id2"), "id1id2");
    assert_eq!(
        call(&table, (), Method::GET, "/users/id1/users2/id2/users3/id3"),
        "id1id2id3"
    );
    assert_eq!(
        call(&table, (), Method::GET, "/users/id1/users2/id2/users3/id3/users4/id4"),
        "id1id2id3id4"
    );
    assert_eq!(
        call(
            &table,
            (),
            Method::GET,
            "/users/id1/users2/id2/users3/id3/users4/id4/users5/id5"
        ),
        "id1id2id3id4id5"
    );
    assert_eq!(
        call(
            &table,
            (),
            Method::GET,
            "/users/id1/users2/id2/users3/id3/users4/id4/users5/id5/users6/id6"
        ),
        "id1id2id3id4id5id6"
    );
    assert_eq!(
        call(
            &table,
            (),
            Method::GET,
            "/users/id1/users2/id2/users3/id3/users4/id4/users5/id5/users6/id6/users7/id7"
        ),
        "id1id2id3id4id5id6id7"
    );
}
