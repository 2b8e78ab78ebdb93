//! Rows of the persistent store, as the admin plane reads and writes them.

use vstd::prelude::*;
use crate::config::Route;

verus! {

/// A stored route.
#[derive(Debug)]
pub struct DbRoute {
    pub id: i64,
    pub path: String,
    pub upstream: String,
}

/// A stored API key: its name and fingerprint (never the key itself).
#[derive(Debug)]
pub struct DbApiKey {
    pub id: i64,
    pub name: String,
    pub key_hash: String,
}

impl DbRoute {
    /// The route table entry for this row.
    pub fn to_route(&self) -> (r: Route)
        ensures
            r.path@ == self.path@,
            r.upstream@ == self.upstream@,
    {
        Route { path: self.path.clone(), upstream: self.upstream.clone() }
    }
}

/// The route table built from the store's rows, in the store's order.
pub fn routes_from_rows(rows: &Vec<DbRoute>) -> (r: Vec<Route>)
    ensures
        r@.len() == rows@.len(),
        forall|i: int|
            0 <= i < rows@.len() ==> #[trigger] r@[i].path@ == rows@[i].path@ && r@[i].upstream@
                == rows@[i].upstream@,
{
    let mut r: Vec<Route> = Vec::new();
    let mut i: usize = 0;
    while i < rows.len()
        invariant
            i <= rows@.len(),
            r@.len() == i,
            forall|j: int|
                0 <= j < i ==> #[trigger] r@[j].path@ == rows@[j].path@ && r@[j].upstream@
                    == rows@[j].upstream@,
        decreases rows.len() - i,
    {
        r.push(rows[i].to_route());
        i = i + 1;
    }
    r
}

} // verus!
