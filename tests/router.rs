use interledger::router::{NoRouteFoundError, Route, Router};

fn route(prefix: &str, id: u64) -> Route {
    Route { prefix: prefix.as_bytes().to_vec(), account_id: id }
}

#[test]
fn longest_prefix_wins() {
    let r = Router::new(vec![route("a", 1), route("a.b", 2)]);
    assert_eq!(r.route(b"a.b.c"), Ok(2));
    assert_eq!(r.route(b"a.c"), Ok(1));
    let r = Router::new(vec![route("a.b", 2), route("a", 1)]);
    assert_eq!(r.route(b"a.b.c"), Ok(2));
}

#[test]
fn no_route_found() {
    let r = Router::new(vec![route("a", 1), route("a.b", 2)]);
    assert_eq!(r.route(b"z"), Err(NoRouteFoundError));
    let empty = Router::new(vec![]);
    assert_eq!(empty.route(b"a"), Err(NoRouteFoundError));
    assert_eq!(empty.len(), 0);
}

#[test]
fn ties_go_to_first_registered() {
    let r = Router::new(vec![route("a.b", 7), route("a.b", 8)]);
    assert_eq!(r.route(b"a.b.c"), Ok(7));
}

#[test]
fn empty_prefix_is_default_route() {
    let r = Router::new(vec![route("", 0), route("example.bob", 3)]);
    assert_eq!(r.route(b"example.bob.x"), Ok(3));
    assert_eq!(r.route(b"g.anything"), Ok(0));
}
