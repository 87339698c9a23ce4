//! What the dispatcher decides for one request: which handler of which
//! route table serves it, and what is answered where none does.

use vstd::prelude::*;
use vstd::hash_map::StringHashMap;
use vstd::utf8::encode_utf8;
use crate::request::{HttpMethod, Request};
use crate::response::{Response, ResponseView, with_header};
use crate::router::{Router, resolve, resolved_view};

verus! {

/// What resolving `path` over the tables from `from` on gives: the
/// resolution of the first table, in their order, that has one.
pub open spec fn resolve_tables<H>(
    tables: Seq<Router<H>>,
    method: HttpMethod,
    path: Seq<char>,
    from: int,
) -> Option<(H, Map<Seq<char>, Seq<char>>)>
    decreases tables.len() - from,
{
    if from < 0 || from >= tables.len() {
        None
    } else {
        match resolve(tables[from].endpoints(method), path) {
            Some(found) => Some(found),
            None => resolve_tables(tables, method, path, from + 1),
        }
    }
}

/// Resolves a request over the route tables in the order in which they were
/// added: the first table with a matching endpoint wins, and within it the
/// first such endpoint.
pub fn find_handler<'a, H>(routers: &'a Vec<Router<H>>, method: &HttpMethod, route: &str) -> (found:
    Option<(&'a H, Option<StringHashMap<String>>)>)
    ensures
        resolved_view(found) == resolve_tables(routers@, *method, route@, 0),
        found matches Some((_, binding)) ==> binding is Some,
{
    let mut i: usize = 0;
    while i < routers.len()
        invariant
            0 <= i <= routers.len(),
            resolve_tables(routers@, *method, route@, 0) == resolve_tables(
                routers@,
                *method,
                route@,
                i as int,
            ),
        decreases routers.len() - i,
    {
        let found = routers[i].match_handler(method, route);
        if found.is_some() {
            return found;
        }
        i += 1;
    }
    None
}

/// The answer where no route matches: status 404 and a JSON body that says
/// so.
pub fn not_found_handler(_req: &Request, res: &mut Response)
    ensures
        final(res)@ == (ResponseView {
            status: 404,
            headers: with_header(old(res)@.headers, "Content-Type"@, "application/json"@),
            body: encode_utf8("{\"error\": \"not found\"}"@),
        }),
        old(res).wf() ==> final(res).wf(),
{
    res.set_header("Content-Type", "application/json");
    res.set_status(404);
    res.set_body("{\"error\": \"not found\"}");
}

} // verus!
