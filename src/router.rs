use vstd::prelude::*;
use crate::address::{is_prefix, starts_with};

verus! {

/// One routing-table entry: an address prefix and the account that serves it.
#[derive(Debug, Clone)]
pub struct Route {
    pub prefix: Vec<u8>,
    pub account_id: u64,
}

/// No entry of the table matches the destination.
#[derive(Debug, PartialEq, Eq)]
pub struct NoRouteFoundError;

/// Entry `i` of `t` applies to `d`.
pub open spec fn entry_matches(t: Seq<(Seq<u8>, u64)>, i: int, d: Seq<u8>) -> bool {
    0 <= i < t.len() && is_prefix(t[i].0, d)
}

/// Entry `i` is the selected route for `d`: it matches, no entry has a longer matching
/// prefix, and no earlier entry has an equally long one.
pub open spec fn is_best_match(t: Seq<(Seq<u8>, u64)>, i: int, d: Seq<u8>) -> bool {
    &&& entry_matches(t, i, d)
    &&& forall|j: int| #[trigger] entry_matches(t, j, d) ==> t[j].0.len() <= t[i].0.len()
    &&& forall|j: int| 0 <= j < i && #[trigger] entry_matches(t, j, d) ==> t[j].0.len() < t[i].0.len()
}

/// An ordered routing table, fixed once built.
#[derive(Debug)]
pub struct Router {
    routes: Vec<Route>,
}

impl View for Router {
    type V = Seq<(Seq<u8>, u64)>;

    closed spec fn view(&self) -> Seq<(Seq<u8>, u64)> {
        self.routes@.map_values(|r: Route| (r.prefix@, r.account_id))
    }
}

impl Router {
    /// Builds a table whose entries keep the given order.
    pub fn new(routes: Vec<Route>) -> (r: Router)
        ensures
            r@ == routes@.map_values(|e: Route| (e.prefix@, e.account_id)),
    {
        let r = Router { routes };
        r
    }

    pub fn len(&self) -> (r: usize)
        ensures
            r == self@.len(),
    {
        self.routes.len()
    }

    /// Selects the account for `destination` by longest prefix, the first entry winning ties.
    pub fn route(&self, destination: &[u8]) -> (r: Result<u64, NoRouteFoundError>)
        ensures
            r is Err <==> (forall|j: int| !#[trigger] entry_matches(self@, j, destination@)),
            r matches Ok(id) ==> exists|i: int|
                is_best_match(self@, i, destination@) && #[trigger] self@[i].1 == id,
    {
        let ghost t = self@;
        let ghost d = destination@;
        let mut best: Option<usize> = None;
        let mut i: usize = 0;
        while i < self.routes.len()
            invariant
                0 <= i <= self.routes@.len(),
                t == self@,
                d == destination@,
                t.len() == self.routes@.len(),
                forall|k: int| 0 <= k < t.len() ==> #[trigger] t[k] == (self.routes@[k].prefix@, self.routes@[k].account_id),
                best is None ==> forall|j: int| 0 <= j < i ==> !#[trigger] entry_matches(t, j, d),
                best matches Some(b) ==> {
                    &&& b < i
                    &&& entry_matches(t, b as int, d)
                    &&& forall|j: int| 0 <= j < i && #[trigger] entry_matches(t, j, d) ==> t[j].0.len() <= t[b as int].0.len()
                    &&& forall|j: int| 0 <= j < b && #[trigger] entry_matches(t, j, d) ==> t[j].0.len() < t[b as int].0.len()
                },
            decreases self.routes@.len() - i,
        {
            let e = &self.routes[i];
            if starts_with(destination, e.prefix.as_slice()) {
                assert(entry_matches(t, i as int, d));
                match best {
                    None => {
                        best = Some(i);
                    },
                    Some(b) => {
                        if e.prefix.len() > self.routes[b].prefix.len() {
                            best = Some(i);
                        }
                    },
                }
            }
            i = i + 1;
        }
        match best {
            None => Err(NoRouteFoundError),
            Some(b) => {
                assert(is_best_match(t, b as int, d));
                let id = self.routes[b].account_id;
                assert(self@[b as int].1 == id);
                Ok(id)
            },
        }
    }
}

} // verus!
