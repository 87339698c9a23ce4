//! The route table: endpoints filed by method in the order of their
//! registration, and resolved first come, first served.

use std::collections::HashMap;
use vstd::prelude::*;
use vstd::hash_map::StringHashMap;
use vstd::string::StringExecFns;
use crate::matcher::{RouteMatcher, match_path, found_view};
use crate::request::HttpMethod;
use crate::text::{chars_of, string_of};

verus! {

broadcast use vstd::std_specs::hash::group_hash_axioms;

/// An endpoint as contracts see it.
pub struct EndpointView<H> {
    /// The route template, mount prefix included.
    pub template: Seq<char>,
    /// The handler registered for it.
    pub handler: H,
}

/// One registration: a route template and the handler that serves it.
#[derive(Clone)]
pub struct Endpoint<H> {
    handler: H,
    matcher: RouteMatcher,
}

impl<H> View for Endpoint<H> {
    type V = EndpointView<H>;

    closed spec fn view(&self) -> EndpointView<H> {
        EndpointView { template: self.matcher@, handler: self.handler }
    }
}

impl<H> Endpoint<H> {
    /// An endpoint that serves the template `path` with `handler`.
    pub fn new(path: String, handler: H) -> (endpoint: Self)
        ensures
            endpoint@ == (EndpointView { template: path@, handler }),
    {
        let matcher = RouteMatcher::new(path.as_str());
        Self { handler, matcher }
    }

    /// Matches `path` against the endpoint's template.
    pub fn matches(&self, path: &str) -> (found: Option<StringHashMap<String>>)
        ensures
            found_view(found) == match_path(self@.template, path@),
    {
        self.matcher.matches(path)
    }

    /// The handler of the endpoint.
    pub fn handler(&self) -> (handler: &H)
        ensures
            *handler == self@.handler,
    {
        &self.handler
    }
}

/// The path under which a sub-path is mounted below a prefix: the two
/// joined, with one `/` dropped where the prefix ends in `/` and the
/// sub-path begins with one.
pub open spec fn mount(prefix: Seq<char>, sub: Seq<char>) -> Seq<char> {
    if prefix.len() > 0 && prefix.last() == '/' && sub.len() > 0 && sub[0] == '/' {
        prefix.drop_last() + sub
    } else {
        prefix + sub
    }
}

/// Where the first endpoint at or after `from` that matches `path` stands
/// in `endpoints`, if there is one.
pub open spec fn first_match<H>(endpoints: Seq<EndpointView<H>>, path: Seq<char>, from: int) -> Option<
    int,
>
    decreases endpoints.len() - from,
{
    if from < 0 || from >= endpoints.len() {
        None
    } else if match_path(endpoints[from].template, path) is Some {
        Some(from)
    } else {
        first_match(endpoints, path, from + 1)
    }
}

/// What resolving `path` over `endpoints` gives: handler and binding of the
/// first endpoint, in the order of the sequence, whose template matches.
pub open spec fn resolve<H>(endpoints: Seq<EndpointView<H>>, path: Seq<char>) -> Option<
    (H, Map<Seq<char>, Seq<char>>),
> {
    match first_match(endpoints, path, 0) {
        Some(i) => Some((endpoints[i].handler, match_path(endpoints[i].template, path)->0)),
        None => None,
    }
}

/// What a resolution returned, as contracts see it.
pub open spec fn resolved_view<H>(found: Option<(&H, Option<StringHashMap<String>>)>) -> Option<
    (H, Map<Seq<char>, Seq<char>>),
> {
    match found {
        Some((handler, Some(binding))) => Some((*handler, crate::text::map_view(binding))),
        _ => None,
    }
}

/// The views of a list of endpoints, in order.
pub open spec fn endpoint_views<H>(list: Seq<Endpoint<H>>) -> Seq<EndpointView<H>> {
    list.map_values(|e: Endpoint<H>| e@)
}

/// Resolves `route` over `list`: the first endpoint that matches wins, and
/// no endpoint after it is looked at.
pub fn resolve_in<'a, H>(list: &'a Vec<Endpoint<H>>, route: &str) -> (found: Option<
    (&'a H, Option<StringHashMap<String>>),
>)
    ensures
        resolved_view(found) == resolve(endpoint_views(list@), route@),
        found matches Some((_, binding)) ==> binding is Some,
{
    let ghost views = endpoint_views(list@);
    let mut i: usize = 0;
    while i < list.len()
        invariant
            0 <= i <= list.len(),
            views == endpoint_views(list@),
            first_match(views, route@, 0) == first_match(views, route@, i as int),
        decreases list.len() - i,
    {
        let found = list[i].matches(route);
        assert(views[i as int] == list[i as int]@);
        if found.is_some() {
            return Some((list[i].handler(), found));
        }
        i += 1;
    }
    None
}

/// Whether `endpoints` holds an endpoint at `i` whose template matches
/// `path`.
pub open spec fn accepts<H>(endpoints: Seq<EndpointView<H>>, path: Seq<char>, i: int) -> bool {
    0 <= i < endpoints.len() && match_path(endpoints[i].template, path) is Some
}

/// What the endpoint at `i` gives for `path`: its handler and the binding
/// of its template.
pub open spec fn outcome<H>(endpoints: Seq<EndpointView<H>>, path: Seq<char>, i: int) -> (
    H,
    Map<Seq<char>, Seq<char>>,
) {
    (endpoints[i].handler, match_path(endpoints[i].template, path)->0)
}

/// `endpoints` with the entries at `i` and `j` in each other's place.
pub open spec fn swapped<H>(endpoints: Seq<EndpointView<H>>, i: int, j: int) -> Seq<
    EndpointView<H>,
> {
    endpoints.update(i, endpoints[j]).update(j, endpoints[i])
}

/// A scan from `from` stops at the first endpoint that matches, and finds
/// nothing only if none from there on matches.
pub proof fn lemma_first_match<H>(endpoints: Seq<EndpointView<H>>, path: Seq<char>, from: int)
    requires
        0 <= from <= endpoints.len(),
    ensures
        match first_match(endpoints, path, from) {
            Some(i) => from <= i && accepts(endpoints, path, i) && forall|j: int|
                from <= j < i ==> !accepts(endpoints, path, j),
            None => forall|j: int| from <= j < endpoints.len() ==> !accepts(endpoints, path, j),
        },
    decreases endpoints.len() - from,
{
    if from < endpoints.len() && !(match_path(endpoints[from].template, path) is Some) {
        lemma_first_match(endpoints, path, from + 1);
    }
}

/// First registered wins: an endpoint that matches, with none before it
/// that does, is the one resolved, whatever stands after it.
pub proof fn lemma_first_registered_wins<H>(
    endpoints: Seq<EndpointView<H>>,
    path: Seq<char>,
    i: int,
)
    requires
        accepts(endpoints, path, i),
        forall|j: int| 0 <= j < i ==> !accepts(endpoints, path, j),
    ensures
        resolve(endpoints, path) == Some(outcome(endpoints, path, i)),
{
    lemma_first_match(endpoints, path, 0);
}

/// Resolution finds nothing exactly if no endpoint matches.
pub proof fn lemma_resolves_nothing<H>(endpoints: Seq<EndpointView<H>>, path: Seq<char>)
    ensures
        resolve(endpoints, path) is None <==> forall|j: int| !accepts(endpoints, path, j),
{
    lemma_first_match(endpoints, path, 0);
}

/// For a path that exactly one endpoint matches, the order of the
/// endpoints does not matter: with any two of them in each other's place,
/// the same handler and binding are resolved.
pub proof fn lemma_reorder_keeps_unique_match<H>(
    endpoints: Seq<EndpointView<H>>,
    path: Seq<char>,
    i: int,
    j: int,
    only: int,
)
    requires
        0 <= i < endpoints.len(),
        0 <= j < endpoints.len(),
        accepts(endpoints, path, only),
        forall|other: int| other != only ==> !accepts(endpoints, path, other),
    ensures
        resolve(swapped(endpoints, i, j), path) == resolve(endpoints, path),
{
    let after = swapped(endpoints, i, j);
    let moved = if only == i {
        j
    } else if only == j {
        i
    } else {
        only
    };
    assert(after[moved] == endpoints[only]);
    assert forall|k: int| 0 <= k < moved implies !accepts(after, path, k) by {
        let source = if k == i {
            j
        } else if k == j {
            i
        } else {
            k
        };
        assert(after[k] == endpoints[source]);
        assert(!accepts(endpoints, path, source));
    }
    lemma_first_registered_wins(after, path, moved);
    lemma_first_registered_wins(endpoints, path, only);
}

/// For a path that two endpoints match, resolution tracks the order: the
/// earlier of the two wins where nothing before it matches, and with the
/// two in each other's place the other one wins.
pub proof fn lemma_overlap_tracks_order<H>(
    endpoints: Seq<EndpointView<H>>,
    path: Seq<char>,
    i: int,
    j: int,
)
    requires
        i < j,
        accepts(endpoints, path, i),
        accepts(endpoints, path, j),
        forall|k: int| 0 <= k < i ==> !accepts(endpoints, path, k),
    ensures
        resolve(endpoints, path) == Some(outcome(endpoints, path, i)),
        resolve(swapped(endpoints, i, j), path) == Some(outcome(endpoints, path, j)),
{
    let after = swapped(endpoints, i, j);
    assert(after[i] == endpoints[j]);
    assert forall|k: int| 0 <= k < i implies !accepts(after, path, k) by {
        assert(after[k] == endpoints[k]);
        assert(!accepts(endpoints, path, k));
    }
    lemma_first_registered_wins(endpoints, path, i);
    lemma_first_registered_wins(after, path, i);
}

/// A route table: a mount prefix and, for each method, its endpoints in
/// the order in which they were registered.
#[derive(Clone)]
pub struct Router<H> {
    path: String,
    routes: HashMap<u8, Vec<Endpoint<H>>>,
}

/// Whether `after` is `before` with one more endpoint, registered last
/// under `method`, for the sub-path `name` and with `handler`.
pub open spec fn registered<H>(
    before: Router<H>,
    after: Router<H>,
    method: HttpMethod,
    name: Seq<char>,
    handler: H,
) -> bool {
    &&& after.prefix() == before.prefix()
    &&& after.endpoints(method) == before.endpoints(method).push(
        EndpointView { template: mount(before.prefix(), name), handler },
    )
    &&& forall|other: HttpMethod|
        other != method ==> after.endpoints(other) == before.endpoints(other)
}

impl<H> Router<H> {
    /// The mount prefix of the table.
    pub closed spec fn prefix(&self) -> Seq<char> {
        self.path@
    }

    /// The endpoints registered under `method`, first registered first.
    pub closed spec fn endpoints(&self, method: HttpMethod) -> Seq<EndpointView<H>> {
        if self.routes@.contains_key(method.code_spec()) {
            endpoint_views(self.routes@[method.code_spec()]@)
        } else {
            Seq::empty()
        }
    }

    /// An empty table mounted at `path`.
    pub fn new(path: &str) -> (router: Self)
        ensures
            router.prefix() == path@,
            forall|method: HttpMethod| router.endpoints(method) == Seq::<EndpointView<H>>::empty(),
    {
        Self { path: path.to_owned(), routes: HashMap::new() }
    }

    /// Registers `handler` for `GET` requests to `name`.
    pub fn get(&mut self, name: &str, handler: H)
        ensures
            registered(*old(self), *final(self), HttpMethod::Get, name@, handler),
    {
        self.add_route(name, HttpMethod::Get, handler);
    }

    /// Registers `handler` for `POST` requests to `name`.
    pub fn post(&mut self, name: &str, handler: H)
        ensures
            registered(*old(self), *final(self), HttpMethod::Post, name@, handler),
    {
        self.add_route(name, HttpMethod::Post, handler);
    }

    /// Registers `handler` for `PUT` requests to `name`.
    pub fn put(&mut self, name: &str, handler: H)
        ensures
            registered(*old(self), *final(self), HttpMethod::Put, name@, handler),
    {
        self.add_route(name, HttpMethod::Put, handler);
    }

    /// Registers `handler` for `PATCH` requests to `name`.
    pub fn patch(&mut self, name: &str, handler: H)
        ensures
            registered(*old(self), *final(self), HttpMethod::Patch, name@, handler),
    {
        self.add_route(name, HttpMethod::Patch, handler);
    }

    /// Registers `handler` for `DELETE` requests to `name`.
    pub fn delete(&mut self, name: &str, handler: H)
        ensures
            registered(*old(self), *final(self), HttpMethod::Delete, name@, handler),
    {
        self.add_route(name, HttpMethod::Delete, handler);
    }

    /// Appends an endpoint for `name`, mounted below the prefix, to the
    /// endpoints of `method`; every earlier registration keeps its place.
    pub fn add_route(&mut self, name: &str, method: HttpMethod, handler: H)
        ensures
            registered(*old(self), *final(self), method, name@, handler),
    {
        let endpoint = Endpoint::new(Self::format_path(self.path.as_str(), name), handler);
        let key: u8 = method.code();
        let mut list = match self.routes.remove(&key) {
            Some(list) => list,
            None => Vec::new(),
        };
        let ghost before = list@;
        list.push(endpoint);
        self.routes.insert(key, list);
        proof {
            assert(endpoint_views(before) == old(self).endpoints(method));
            assert(endpoint_views(list@) =~= endpoint_views(before).push(endpoint@));
            assert forall|other: HttpMethod| other != method implies final(self).endpoints(other)
                == old(self).endpoints(other) by {
                assert(other.code_spec() != key);
            }
        }
    }

    /// Resolves a request: the handler and the parameter binding of the
    /// first endpoint registered under `method` whose template matches
    /// `route`, or `None` if the method has no such endpoint.
    pub fn match_handler(&self, method: &HttpMethod, route: &str) -> (found: Option<
        (&H, Option<StringHashMap<String>>),
    >)
        ensures
            resolved_view(found) == resolve(self.endpoints(*method), route@),
            found matches Some((_, binding)) ==> binding is Some,
    {
        let key: u8 = method.code();
        match self.routes.get(&key) {
            Some(list) => resolve_in(list, route),
            None => None,
        }
    }

    /// The template of a sub-path, mounted below a prefix.
    pub fn format_path(base: &str, path: &str) -> (full: String)
        ensures
            full@ == mount(base@, path@),
    {
        let prefix = chars_of(base);
        let sub = chars_of(path);
        let keep: usize = if prefix.len() > 0 && sub.len() > 0 && prefix[prefix.len() - 1] == '/'
            && sub[0] == '/' {
            prefix.len() - 1
        } else {
            prefix.len()
        };
        let mut full = string_of(&prefix, 0, keep);
        full.append(path);
        assert(prefix@.subrange(0, prefix.len() as int) =~= prefix@);
        assert(prefix@.subrange(0, prefix.len() - 1) =~= prefix@.drop_last());
        full
    }
}

} // verus!
