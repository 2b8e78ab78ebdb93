//! Longest-prefix route matching.

use vstd::prelude::*;
use crate::config::Route;
use crate::text::{chars_of, seq_starts_with, starts_with};

verus! {

/// Route `i` of `routes` applies to request path `q`.
pub open spec fn route_applies(routes: Seq<Route>, i: int, q: Seq<char>) -> bool {
    0 <= i < routes.len() && seq_starts_with(q, routes[i].path@)
}

/// Route `i` is the one chosen for `q`: it applies, no applying route has a
/// longer path, and of the applying routes with the longest path it is the
/// last in table order.
pub open spec fn is_chosen_route(routes: Seq<Route>, i: int, q: Seq<char>) -> bool {
    &&& route_applies(routes, i, q)
    &&& forall|j: int| #[trigger] route_applies(routes, j, q)
            ==> routes[j].path@.len() <= routes[i].path@.len()
    &&& forall|j: int| i < j && #[trigger] route_applies(routes, j, q)
            ==> routes[j].path@.len() < routes[i].path@.len()
}

/// The index of the route whose path is the longest prefix of `request_path`,
/// the last such in table order on ties; `None` when no path is a prefix.
pub fn longest_prefix_match(routes: &Vec<Route>, request_path: &str) -> (r: Option<usize>)
    ensures
        match r {
            Some(i) => is_chosen_route(routes@, i as int, request_path@),
            None => forall|j: int| !route_applies(routes@, j, request_path@),
        },
{
    let q = chars_of(request_path);
    let mut best: Option<usize> = None;
    let mut i: usize = 0;
    while i < routes.len()
        invariant
            q@ == request_path@,
            i <= routes@.len(),
            match best {
                Some(b) => {
                    &&& b < i
                    &&& route_applies(routes@, b as int, q@)
                    &&& forall|j: int| 0 <= j < i && #[trigger] route_applies(routes@, j, q@)
                            ==> routes@[j].path@.len() <= routes@[b as int].path@.len()
                    &&& forall|j: int| b < j < i && #[trigger] route_applies(routes@, j, q@)
                            ==> routes@[j].path@.len() < routes@[b as int].path@.len()
                },
                None => forall|j: int| 0 <= j < i ==> !route_applies(routes@, j, q@),
            },
        decreases routes.len() - i,
    {
        let p = chars_of(routes[i].path.as_str());
        if starts_with(&q, &p) {
            let better = match best {
                None => true,
                Some(b) => p.len() >= routes[b].path.unicode_len(),
            };
            if better {
                best = Some(i);
            }
        }
        i = i + 1;
    }
    best
}

/// Longest-prefix law: the chosen route's path is at least as long as the
/// path of every other route that is a prefix of the same request path.
pub proof fn chosen_route_is_longest(routes: Seq<Route>, i: int, j: int, q: Seq<char>)
    requires
        is_chosen_route(routes, i, q),
        route_applies(routes, j, q),
    ensures
        routes[i].path@.len() >= routes[j].path@.len(),
{
}

} // verus!
