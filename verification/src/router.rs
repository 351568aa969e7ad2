//! Routing: the handlers of one path pattern, the router of a project, and
//! the holder through which a running server swaps one router for the next.
use crate::config::{HttpMethod, ProjectRoute, ProjectRoutes};
use crate::error::{AppError, AppErrorView};
use crate::route_table::{
    accepts_after, built_from, capture_names, insert_route, new_router, open_braces, param_keys,
    route_at, route_match, router_routes, RouteRejection, MAX_OPEN_BRACES,
};
use crate::text::{chars_of, same_chars};
use arc_swap::ArcSwap;
use std::sync::Arc;
use vstd::prelude::*;

verus! {

/// The handlers of one path pattern: for each method, the name of the
/// function in the script that answers it, if any.
#[derive(Debug, PartialEq, Clone)]
pub struct MethodRoute {
    pub get: Option<String>,
    pub head: Option<String>,
    pub delete: Option<String>,
    pub options: Option<String>,
    pub patch: Option<String>,
    pub post: Option<String>,
    pub put: Option<String>,
    pub trace: Option<String>,
    pub connect: Option<String>,
}

impl View for MethodRoute {
    type V = Seq<Option<Seq<char>>>;

    /// The nine handlers, each at the place of its method.
    open spec fn view(&self) -> Seq<Option<Seq<char>>> {
        seq![
            self.get.deep_view(),
            self.head.deep_view(),
            self.delete.deep_view(),
            self.options.deep_view(),
            self.patch.deep_view(),
            self.post.deep_view(),
            self.put.deep_view(),
            self.trace.deep_view(),
            self.connect.deep_view(),
        ]
    }
}

impl Default for MethodRoute {
    /// A pattern without handlers.
    fn default() -> (route: MethodRoute)
        ensures
            forall|m: HttpMethod| route.handler_of(m) is None,
    {
        MethodRoute {
            get: None,
            head: None,
            delete: None,
            options: None,
            patch: None,
            post: None,
            put: None,
            trace: None,
            connect: None,
        }
    }
}

/// The text of an optional name.
fn as_text(name: &Option<String>) -> (text: Option<&str>)
    ensures
        text.deep_view() == name.deep_view(),
{
    match name {
        Some(n) => Some(n.as_str()),
        None => None,
    }
}

/// The handler that `entries` declare for `method`. Where several entries
/// name the method, the last one counts.
pub open spec fn declared_handler(entries: Seq<(HttpMethod, Seq<char>)>, method: HttpMethod) -> Option<
    Seq<char>,
>
    decreases entries.len(),
{
    if entries.len() == 0 {
        None
    } else if entries.last().0 == method {
        Some(entries.last().1)
    } else {
        declared_handler(entries.drop_last(), method)
    }
}

/// No two entries name the same method.
pub open spec fn distinct_methods(entries: Seq<(HttpMethod, Seq<char>)>) -> bool {
    forall|i: int, j: int| 0 <= i < j < entries.len() ==> entries[i].0 != entries[j].0
}

/// The nine handlers that `entries` declare, each at the place of its method.
pub open spec fn declared_slots(entries: Seq<(HttpMethod, Seq<char>)>) -> Seq<Option<Seq<char>>> {
    Seq::new(9, |k: int| declared_handler(entries, HttpMethod::at(k)))
}

/// A method has a declared handler exactly when some entry names it, and
/// among entries with distinct methods the handler is that entry's.
pub proof fn lemma_declared_handler(entries: Seq<(HttpMethod, Seq<char>)>, method: HttpMethod)
    ensures
        declared_handler(entries, method) is None <==> forall|i: int|
            0 <= i < entries.len() ==> (#[trigger] entries[i]).0 != method,
        distinct_methods(entries) ==> forall|i: int|
            0 <= i < entries.len() && (#[trigger] entries[i]).0 == method ==> declared_handler(
                entries,
                method,
            ) == Some(entries[i].1),
    decreases entries.len(),
{
    if entries.len() > 0 {
        let rest = entries.drop_last();
        lemma_declared_handler(rest, method);
        assert forall|i: int| 0 <= i < rest.len() implies rest[i] == entries[i] by {}
        if entries.last().0 != method {
            assert(declared_handler(entries, method) == declared_handler(rest, method));
            if forall|i: int| 0 <= i < rest.len() ==> (#[trigger] rest[i]).0 != method {
                assert forall|i: int| 0 <= i < entries.len() implies (#[trigger] entries[i]).0
                    != method by {
                    if i < rest.len() {
                        assert(rest[i] == entries[i]);
                    }
                }
            } else {
                let w = choose|i: int| 0 <= i < rest.len() && (#[trigger] rest[i]).0 == method;
                assert(entries[w].0 == method);
            }
        } else {
            assert(entries[entries.len() - 1].0 == method);
        }
        if distinct_methods(entries) {
            assert(distinct_methods(rest)) by {
                assert forall|i: int, j: int| 0 <= i < j < rest.len() implies rest[i].0
                    != rest[j].0 by {
                    assert(rest[i] == entries[i]);
                    assert(rest[j] == entries[j]);
                }
            }
            assert forall|i: int|
                0 <= i < entries.len() && (#[trigger] entries[i]).0 == method implies declared_handler(
                entries,
                method,
            ) == Some(entries[i].1) by {
                if i < rest.len() {
                    assert(rest[i] == entries[i]);
                    assert(entries[i].0 != entries[entries.len() - 1].0);
                }
            }
        }
    }
}

impl MethodRoute {
    /// The handler of `method`.
    pub open spec fn handler_of(&self, method: HttpMethod) -> Option<Seq<char>> {
        self@[method.slot()]
    }

    /// The handler of `method`.
    pub fn handler(&self, method: HttpMethod) -> (name: Option<&str>)
        ensures
            name.deep_view() == self.handler_of(method),
    {
        match method {
            HttpMethod::Get => as_text(&self.get),
            HttpMethod::Head => as_text(&self.head),
            HttpMethod::Delete => as_text(&self.delete),
            HttpMethod::Options => as_text(&self.options),
            HttpMethod::Patch => as_text(&self.patch),
            HttpMethod::Post => as_text(&self.post),
            HttpMethod::Put => as_text(&self.put),
            HttpMethod::Trace => as_text(&self.trace),
            HttpMethod::Connect => as_text(&self.connect),
        }
    }

    /// Makes `handler` the handler of `method`, and leaves the others.
    pub fn set(&mut self, method: HttpMethod, handler: String)
        ensures
            final(self).handler_of(method) == Some(handler@),
            forall|m: HttpMethod| m != method ==> final(self).handler_of(m) == old(self).handler_of(m),
    {
        match method {
            HttpMethod::Get => self.get = Some(handler),
            HttpMethod::Head => self.head = Some(handler),
            HttpMethod::Delete => self.delete = Some(handler),
            HttpMethod::Options => self.options = Some(handler),
            HttpMethod::Patch => self.patch = Some(handler),
            HttpMethod::Post => self.post = Some(handler),
            HttpMethod::Put => self.put = Some(handler),
            HttpMethod::Trace => self.trace = Some(handler),
            HttpMethod::Connect => self.connect = Some(handler),
        }
    }

    /// The handlers that `entries` declare. A method may be named once:
    /// `Err(i)` says that entry `i` names a method that an earlier entry
    /// named, and that no entry before it does so.
    pub fn from_entries(entries: &Vec<ProjectRoute>) -> (r: Result<MethodRoute, usize>)
        ensures
            match r {
                Ok(route) => {
                    &&& distinct_methods(entries.deep_view())
                    &&& route@ == declared_slots(entries.deep_view())
                },
                Err(i) => {
                    &&& i < entries.len()
                    &&& distinct_methods(entries.deep_view().take(i as int))
                    &&& exists|j: int|
                        0 <= j < i && (#[trigger] entries.deep_view()[j]).0
                            == entries.deep_view()[i as int].0
                },
            },
    {
        let ghost all = entries.deep_view();
        let mut route = MethodRoute::default();
        let mut i: usize = 0;
        while i < entries.len()
            invariant
                i <= entries.len(),
                all == entries.deep_view(),
                distinct_methods(all.take(i as int)),
                forall|m: HttpMethod| route.handler_of(m) == declared_handler(all.take(i as int), m),
            decreases entries.len() - i,
        {
            let entry = &entries[i];
            let ghost seen = all.take(i as int);
            let ghost next = all.take(i + 1);
            proof {
                assert(all[i as int] == entries@[i as int].deep_view());
                assert(next.drop_last() == seen);
                assert(next.last() == all[i as int]);
                lemma_declared_handler(seen, entry.method);
            }
            if route.handler(entry.method).is_some() {
                proof {
                    let j = choose|j: int| 0 <= j < seen.len() && (#[trigger] seen[j]).0 == entry.method;
                    assert(all[j] == seen[j]);
                }
                return Err(i);
            }
            route.set(entry.method, entry.handler.clone());
            proof {
                assert forall|a: int, b: int| 0 <= a < b < next.len() implies next[a].0
                    != next[b].0 by {
                    assert(next[a] == all[a]);
                    assert(next[b] == all[b]);
                    if b < i {
                        assert(seen[a] == all[a]);
                        assert(seen[b] == all[b]);
                    } else {
                        assert(seen[a].0 != entry.method);
                    }
                }
            }
            i += 1;
        }
        proof {
            assert(all.take(i as int) == all);
            assert forall|k: int| 0 <= k < 9 implies route@[k] == declared_slots(all)[k] by {
                let m = HttpMethod::at(k);
                assert(m.slot() == k);
                assert(route.handler_of(m) == declared_handler(all, m));
            }
            assert(route@ =~= declared_slots(all));
        }
        Ok(route)
    }
}

/// What is wrong with a route.
#[derive(Debug, Clone, PartialEq, Eq)]
pub enum RouteFault {
    /// Two of its entries name this method.
    DuplicateMethod(HttpMethod),
    /// Its pattern is empty.
    EmptyPattern,
    /// Its pattern holds more opening braces, and so may hold more
    /// parameters, than a pattern may.
    TooManyParameters,
    /// The route table refused its pattern.
    Rejected(RouteRejection),
}

/// A route that cannot be part of a router: its place in the project's
/// routes, its pattern, and what is wrong with it.
#[derive(Debug, Clone, PartialEq, Eq)]
pub struct RouterError {
    pub index: usize,
    pub path: String,
    pub fault: RouteFault,
}

/// A route that the library itself finds nothing wrong with: each method is
/// named once, the pattern is not empty and is within the limit on braces.
pub open spec fn entry_ok(entry: (Seq<char>, Seq<(HttpMethod, Seq<char>)>)) -> bool {
    &&& distinct_methods(entry.1)
    &&& entry.0.len() > 0
    &&& open_braces(entry.0) <= MAX_OPEN_BRACES
}

/// What a router built from `routes` holds: each pattern with its declared
/// handlers.
pub open spec fn routes_model(routes: Seq<(Seq<char>, Seq<(HttpMethod, Seq<char>)>)>) -> Map<
    Seq<char>,
    Seq<Option<Seq<char>>>,
>
    decreases routes.len(),
{
    if routes.len() == 0 {
        Map::empty()
    } else {
        routes_model(routes.drop_last()).insert(routes.last().0, declared_slots(routes.last().1))
    }
}

/// The patterns of `routes`, in their order.
pub open spec fn patterns(routes: Seq<(Seq<char>, Seq<(HttpMethod, Seq<char>)>)>) -> Seq<Seq<char>> {
    Seq::new(routes.len(), |i: int| routes[i].0)
}

/// Whether the route table takes route `i` of `routes` once it has been
/// built from the routes before it.
pub open spec fn accepted_at(routes: Seq<(Seq<char>, Seq<(HttpMethod, Seq<char>)>)>, i: int) -> bool {
    accepts_after(patterns(routes.take(i)), routes[i].0)
}

/// Route `i` of `routes` can join the routes before it: the library finds
/// nothing wrong with it and the route table takes it.
pub open spec fn route_ok(routes: Seq<(Seq<char>, Seq<(HttpMethod, Seq<char>)>)>, i: int) -> bool {
    entry_ok(routes[i]) && accepted_at(routes, i)
}

/// The routes make a router: each can join the routes before it.
pub open spec fn routes_ok(routes: Seq<(Seq<char>, Seq<(HttpMethod, Seq<char>)>)>) -> bool {
    forall|j: int| 0 <= j < routes.len() ==> #[trigger] route_ok(routes, j)
}

/// `e` describes the first route of `routes` that cannot join the routes
/// before it, and why: the library's own finding, or the refusal of the
/// route table as it was built from the routes before.
pub open spec fn fault_at(routes: Seq<(Seq<char>, Seq<(HttpMethod, Seq<char>)>)>, e: RouterError) -> bool {
    let i = e.index as int;
    &&& 0 <= i < routes.len()
    &&& e.path@ == routes[i].0
    &&& forall|j: int| 0 <= j < i ==> #[trigger] route_ok(routes, j)
    &&& match e.fault {
        RouteFault::DuplicateMethod(m) => exists|a: int, b: int|
            0 <= a < b < routes[i].1.len() && (#[trigger] routes[i].1[a]).0 == m && (
            #[trigger] routes[i].1[b]).0 == m,
        RouteFault::EmptyPattern => distinct_methods(routes[i].1) && routes[i].0.len() == 0,
        RouteFault::TooManyParameters => distinct_methods(routes[i].1) && routes[i].0.len() > 0
            && open_braces(routes[i].0) > MAX_OPEN_BRACES,
        RouteFault::Rejected(_) => entry_ok(routes[i]) && !accepted_at(routes, i),
    }
}

/// The routes decide the outcome of a build: a fault is found exactly where
/// the routes make no router, and every fault found is at the same route.
pub proof fn lemma_routes_decide(
    routes: Seq<(Seq<char>, Seq<(HttpMethod, Seq<char>)>)>,
    e: RouterError,
    other: RouterError,
)
    requires
        fault_at(routes, e),
    ensures
        !routes_ok(routes),
        fault_at(routes, other) ==> other.index == e.index && other.path@ == e.path@,
{
    let i = e.index as int;
    assert(!route_ok(routes, i));
    if fault_at(routes, other) {
        let k = other.index as int;
        assert(!route_ok(routes, k));
        if k < i {
            assert(route_ok(routes, k));
        }
        if i < k {
            assert(route_ok(routes, i));
        }
    }
}

/// Counts the `{` in `route`.
pub fn count_open_braces(route: &[char]) -> (n: usize)
    ensures
        n == open_braces(route@),
{
    let mut n: usize = 0;
    let mut i: usize = 0;
    while i < route.len()
        invariant
            i <= route.len(),
            n <= i,
            n == open_braces(route@.take(i as int)),
        decreases route.len() - i,
    {
        assert(route@.take(i + 1).drop_last() == route@.take(i as int));
        if route[i] == '{' {
            n += 1;
        }
        i += 1;
    }
    assert(route@.take(i as int) == route@);
    n
}

/// The snapshot that is swapped as a whole: a script and the router whose
/// handler names refer to it.
pub struct AppRouterInner {
    pub code: String,
    pub router: matchit::Router<MethodRoute>,
}

impl AppRouterInner {
    /// A snapshot of `code` and `router`.
    pub fn new(code: &str, router: matchit::Router<MethodRoute>) -> (inner: AppRouterInner)
        ensures
            inner.code@ == code@,
            inner.router == router,
    {
        AppRouterInner { code: code.to_owned(), router }
    }
}

/// The parameters of a match: the parts of the path that the pattern's
/// `{name}` and `{*name}` stood for, in the order of the pattern.
#[derive(Debug, Clone, PartialEq, Eq)]
pub struct Params {
    pairs: Vec<(String, String)>,
}

impl View for Params {
    type V = Seq<(Seq<char>, Seq<char>)>;

    closed spec fn view(&self) -> Seq<(Seq<char>, Seq<char>)> {
        self.pairs.deep_view()
    }
}

/// The value of the first parameter of `params` at or after `from` whose key is `key`.
pub open spec fn param_value_from(params: Seq<(Seq<char>, Seq<char>)>, key: Seq<char>, from: int) -> Option<
    Seq<char>,
>
    decreases params.len() - from,
{
    if from < 0 || from >= params.len() {
        None
    } else if params[from].0 == key {
        Some(params[from].1)
    } else {
        param_value_from(params, key, from + 1)
    }
}

impl Params {
    /// The parameters `pairs`, in their order.
    pub fn new(pairs: Vec<(String, String)>) -> (params: Params)
        ensures
            params@ == pairs.deep_view(),
    {
        Params { pairs }
    }

    /// The number of parameters.
    pub fn len(&self) -> (n: usize)
        ensures
            n == self@.len(),
    {
        self.pairs.len()
    }

    /// The value of the first parameter named `key`.
    pub fn get(&self, key: &str) -> (value: Option<&str>)
        ensures
            value.deep_view() == param_value_from(self@, key@, 0),
    {
        let wanted = chars_of(key);
        let mut i: usize = 0;
        while i < self.pairs.len()
            invariant
                i <= self.pairs.len(),
                wanted@ == key@,
                param_value_from(self@, key@, i as int) == param_value_from(self@, key@, 0),
            decreases self.pairs.len() - i,
        {
            assert(self@[i as int] == self.pairs@[i as int].deep_view());
            let name = chars_of(self.pairs[i].0.as_str());
            if same_chars(wanted.as_slice(), name.as_slice()) {
                return Some(self.pairs[i].1.as_str());
            }
            i += 1;
        }
        None
    }

    /// The parameters as pairs of key and value.
    pub fn pairs(&self) -> (pairs: &Vec<(String, String)>)
        ensures
            pairs.deep_view() == self@,
    {
        &self.pairs
    }
}

/// A route that matched: the name of its handler for the method asked, and
/// the parameters of the match.
#[derive(Debug, Clone, PartialEq, Eq)]
pub struct RouteMatch<'a> {
    pub value: &'a str,
    pub params: Params,
}

/// The pattern of the route that matches `path`.
pub open spec fn matched_pattern(router: matchit::Router<MethodRoute>, path: Seq<char>) -> Seq<char> {
    match route_match(router, path) {
        Some(hit) => hit.0,
        None => Seq::empty(),
    }
}

/// Whether the route that matches `path`, if any, is one the router holds.
pub open spec fn match_is_held(router: matchit::Router<MethodRoute>, path: Seq<char>) -> bool {
    route_match(router, path) matches Some(hit) ==> router_routes(router).contains_key(hit.0)
}

/// What matching answers: the handler and the parameters, or why there are none.
pub open spec fn match_spec(router: matchit::Router<MethodRoute>, method: HttpMethod, path: Seq<char>) -> Result<
    (Seq<char>, Seq<(Seq<char>, Seq<char>)>),
    AppErrorView,
> {
    match route_match(router, path) {
        None => Err(AppErrorView::RoutePathNotFound(path)),
        Some(hit) => match router_routes(router)[hit.0][method.slot()] {
            None => Err(AppErrorView::RouteMethodNotAllowed(method.name())),
            Some(handler) => Ok((handler, hit.1)),
        },
    }
}

/// What matching answers for a method given by name. A name that is none of
/// the nine methods has no handler on any route.
pub open spec fn match_request_spec(router: matchit::Router<MethodRoute>, method: Seq<char>, path: Seq<char>) -> Result<
    (Seq<char>, Seq<(Seq<char>, Seq<char>)>),
    AppErrorView,
> {
    match route_match(router, path) {
        None => Err(AppErrorView::RoutePathNotFound(path)),
        Some(hit) => match HttpMethod::named(method) {
            None => Err(AppErrorView::RouteMethodNotAllowed(method)),
            Some(m) => match router_routes(router)[hit.0][m.slot()] {
                None => Err(AppErrorView::RouteMethodNotAllowed(method)),
                Some(handler) => Ok((handler, hit.1)),
            },
        },
    }
}

/// The view of what `match_it` returns.
pub open spec fn match_view(r: Result<RouteMatch<'_>, AppError>) -> Result<
    (Seq<char>, Seq<(Seq<char>, Seq<char>)>),
    AppErrorView,
> {
    match r {
        Ok(found) => Ok((found.value@, found.params@)),
        Err(e) => Err(e@),
    }
}

/// A snapshot held by a reader. Swaps that come later do not touch it.
#[derive(Clone)]
pub struct AppRouter(pub Arc<AppRouterInner>);

impl AppRouter {
    /// The script of the snapshot.
    pub fn code(&self) -> (code: &str)
        ensures
            code@ == self.0.code@,
    {
        self.0.code.as_str()
    }

    /// Finds the handler for a request: the route whose pattern matches
    /// `path`, then that route's handler for `method`. The parameters
    /// returned carry exactly the names of the matched pattern, in its order.
    pub fn match_it<'m>(&'m self, method: HttpMethod, path: &str) -> (r: Result<
        RouteMatch<'m>,
        AppError,
    >)
        ensures
            match_view(r) == match_spec(self.0.router, method, path@),
            match_is_held(self.0.router, path@),
            r matches Ok(found) ==> param_keys(found.params@) == capture_names(
                matched_pattern(self.0.router, path@),
            ),
    {
        let Some((route, params)) = route_at(&self.0.router, path) else {
            return Err(AppError::RoutePathNotFound(path.to_owned()));
        };
        match route.handler(method) {
            Some(value) => Ok(RouteMatch { value, params: Params::new(params) }),
            None => Err(AppError::RouteMethodNotAllowed(method.as_str().to_owned())),
        }
    }

    /// Finds the handler for a request whose method is given by its name, as
    /// `match_it` does. An unknown path is reported before an unknown method.
    pub fn match_request<'m>(&'m self, method: &str, path: &str) -> (r: Result<
        RouteMatch<'m>,
        AppError,
    >)
        ensures
            match_view(r) == match_request_spec(self.0.router, method@, path@),
            match_is_held(self.0.router, path@),
            r matches Ok(found) ==> param_keys(found.params@) == capture_names(
                matched_pattern(self.0.router, path@),
            ),
    {
        let Some((route, params)) = route_at(&self.0.router, path) else {
            return Err(AppError::RoutePathNotFound(path.to_owned()));
        };
        let Some(known) = HttpMethod::from_name(method) else {
            return Err(AppError::RouteMethodNotAllowed(method.to_owned()));
        };
        match route.handler(known) {
            Some(value) => Ok(RouteMatch { value, params: Params::new(params) }),
            None => Err(AppError::RouteMethodNotAllowed(method.to_owned())),
        }
    }
}

/// The holder of a tenant's current snapshot. Readers load the snapshot of
/// the moment; a swap puts the next one in its place as a whole.
///
/// The snapshot is kept in an `arc_swap::ArcSwap`. The verifier is not shown
/// the inside of the holder: nothing in this library reads it but the four
/// calls into `arc_swap` below.
#[verifier::external_body]
pub struct SwappableAppRouter {
    pub inner: Arc<ArcSwap<AppRouterInner>>,
}

/// Whether `inner` is a snapshot that was stored in `holder`, at its making
/// or by a swap, at some time.
pub uninterp spec fn published(holder: SwappableAppRouter, inner: AppRouterInner) -> bool;

/// Whether a snapshot made of `code` and of a router that holds exactly
/// `routes` was stored in `holder`.
pub open spec fn holds_build(
    holder: SwappableAppRouter,
    code: Seq<char>,
    routes: Seq<(Seq<char>, Seq<(HttpMethod, Seq<char>)>)>,
) -> bool {
    exists|inner: AppRouterInner|
        #[trigger] published(holder, inner) && inner.code@ == code && router_routes(inner.router)
            == routes_model(routes)
}

impl Clone for SwappableAppRouter {
    /// `Arc::clone`: another handle on the same holder.
    #[verifier::external_body]
    fn clone(&self) -> (handle: SwappableAppRouter)
        ensures
            handle == *self,
    {
        SwappableAppRouter { inner: self.inner.clone() }
    }
}

impl SwappableAppRouter {
    /// `ArcSwap::from_pointee`: a holder whose current snapshot is `inner`.
    #[verifier::external_body]
    fn holding(inner: AppRouterInner) -> (holder: SwappableAppRouter)
        ensures
            published(holder, inner),
    {
        SwappableAppRouter { inner: Arc::new(ArcSwap::from_pointee(inner)) }
    }

    /// `ArcSwap::store`: makes `inner` the current snapshot, and hands back
    /// the snapshot that it stored.
    #[verifier::external_body]
    fn publish(&self, inner: AppRouterInner) -> (stored: AppRouter)
        ensures
            *stored.0 == inner,
            published(*self, *stored.0),
    {
        let stored = Arc::new(inner);
        self.inner.store(stored.clone());
        AppRouter(stored)
    }

    /// `ArcSwap::load_full`: the snapshot that is current at the moment of
    /// the call. Which one that is depends on the swaps of other threads; it
    /// is one that was stored in this holder.
    #[verifier::external_body]
    pub fn load(&self) -> (snapshot: AppRouter)
        ensures
            published(*self, *snapshot.0),
    {
        AppRouter(self.inner.load_full())
    }

    /// A holder whose first snapshot is `code` with the router of `routes`.
    pub fn try_new(code: &str, routes: ProjectRoutes) -> (r: Result<SwappableAppRouter, RouterError>)
        ensures
            r is Ok <==> routes_ok(routes.deep_view()),
            match r {
                Ok(holder) => holds_build(holder, code@, routes.deep_view()),
                Err(e) => fault_at(routes.deep_view(), e),
            },
    {
        match SwappableAppRouter::get_router(routes) {
            Ok(router) => {
                let inner = AppRouterInner::new(code, router);
                let ghost stored = inner;
                let holder = SwappableAppRouter::holding(inner);
                assert(published(holder, stored));
                Ok(holder)
            },
            Err(e) => Err(e),
        }
    }

    /// Replaces the current snapshot by `code` with the router of `routes`.
    /// Where the routes make no router, nothing is stored.
    pub fn swap(&self, code: &str, routes: ProjectRoutes) -> (r: Result<(), RouterError>)
        ensures
            r is Ok <==> routes_ok(routes.deep_view()),
            match r {
                Ok(_) => holds_build(*self, code@, routes.deep_view()),
                Err(e) => fault_at(routes.deep_view(), e),
            },
    {
        match SwappableAppRouter::get_router(routes) {
            Ok(router) => {
                let stored = self.publish(AppRouterInner::new(code, router));
                assert(published(*self, *stored.0));
                Ok(())
            },
            Err(e) => Err(e),
        }
    }

    /// Builds the router of `routes`: one route for each pattern, holding the
    /// handlers that its entries declare. The build succeeds exactly when
    /// every route can join the routes before it; the first that cannot ends
    /// the build.
    pub fn get_router(routes: ProjectRoutes) -> (r: Result<matchit::Router<MethodRoute>, RouterError>)
        ensures
            r is Ok <==> routes_ok(routes.deep_view()),
            match r {
                Ok(router) => router_routes(router) == routes_model(routes.deep_view()),
                Err(e) => fault_at(routes.deep_view(), e),
            },
    {
        let ghost all = routes.deep_view();
        let mut router = new_router();
        let mut i: usize = 0;
        proof {
            assert(all.take(0) =~= Seq::empty());
            assert(patterns(all.take(0)) =~= Seq::empty());
        }
        while i < routes.len()
            invariant
                i <= routes.len(),
                all == routes.deep_view(),
                forall|j: int| 0 <= j < i ==> #[trigger] route_ok(all, j),
                router_routes(router) == routes_model(all.take(i as int)),
                built_from(router, patterns(all.take(i as int))),
                !router_routes(router).contains_key(Seq::<char>::empty()),
            decreases routes.len() - i,
        {
            let path = routes[i].0.as_str();
            let entries = &routes[i].1;
            proof {
                assert(all[i as int] == routes@[i as int].deep_view());
                assert(all[i as int].0 == path@);
                assert(all[i as int].1 == entries.deep_view());
            }
            let method_route = match MethodRoute::from_entries(entries) {
                Ok(route) => route,
                Err(k) => {
                    proof {
                        let j = choose|j: int|
                            0 <= j < k && (#[trigger] entries.deep_view()[j]).0
                                == entries.deep_view()[k as int].0;
                        assert(entries.deep_view()[k as int] == entries@[k as int].deep_view());
                        assert(all[i as int].1[j].0 == entries[k as int].method);
                        assert(all[i as int].1[k as int].0 == entries[k as int].method);
                    }
                    let e = RouterError {
                        index: i,
                        path: path.to_owned(),
                        fault: RouteFault::DuplicateMethod(entries[k].method),
                    };
                    proof {
                        lemma_routes_decide(all, e, e);
                    }
                    return Err(e);
                },
            };
            let pattern = chars_of(path);
            if pattern.len() == 0 {
                let e = RouterError { index: i, path: path.to_owned(), fault: RouteFault::EmptyPattern };
                proof {
                    lemma_routes_decide(all, e, e);
                }
                return Err(e);
            }
            if count_open_braces(pattern.as_slice()) > MAX_OPEN_BRACES {
                let e = RouterError {
                    index: i,
                    path: path.to_owned(),
                    fault: RouteFault::TooManyParameters,
                };
                proof {
                    lemma_routes_decide(all, e, e);
                }
                return Err(e);
            }
            let ghost before = router;
            match insert_route(&mut router, path, method_route) {
                Ok(()) => {},
                Err(reason) => {
                    let e = RouterError {
                        index: i,
                        path: path.to_owned(),
                        fault: RouteFault::Rejected(reason),
                    };
                    proof {
                        assert(!accepts_after(patterns(all.take(i as int)), all[i as int].0));
                        lemma_routes_decide(all, e, e);
                    }
                    return Err(e);
                },
            }
            proof {
                assert(accepts_after(patterns(all.take(i as int)), all[i as int].0));
                assert(route_ok(all, i as int));
                assert(all.take(i + 1).drop_last() == all.take(i as int));
                assert(all.take(i + 1).last() == all[i as int]);
                assert(patterns(all.take(i + 1)) =~= patterns(all.take(i as int)).push(all[i as int].0));
            }
            i += 1;
        }
        proof {
            assert(all.take(i as int) == all);
        }
        Ok(router)
    }
}

} // verus!
