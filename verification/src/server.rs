//! Serving a request up to the call of the script: finding the tenant by
//! host, matching the route and assembling what the handler receives.
use crate::engine::Req;
use crate::error::{AppError, AppErrorView};
use crate::router::{match_request_spec, published, AppRouter, RouteMatch, SwappableAppRouter};
use crate::string_map::{map_of, StringMap};
use crate::text::{chars_of, find_char, first_index, string_of};
use dashmap::DashMap;
use vstd::prelude::*;
use vstd::utf8::{decode_utf8, valid_utf8};

verus! {

#[verifier::external_type_specification]
#[verifier::external_body]
#[verifier::reject_recursive_types(K)]
#[verifier::reject_recursive_types(V)]
#[verifier::reject_recursive_types(S)]
pub struct ExDashMap<K, V, S>(DashMap<K, V, S>);

/// The tenants of a registry: for each host, the holder of its router.
pub uninterp spec fn tenant_routers(tenants: DashMap<String, SwappableAppRouter>) -> Map<
    Seq<char>,
    SwappableAppRouter,
>;

/// No tenants at all.
pub open spec fn no_tenants() -> Map<Seq<char>, SwappableAppRouter> {
    Map::empty()
}

/// `DashMap::new`: a registry without tenants.
#[verifier::external_body]
fn new_registry() -> (tenants: DashMap<String, SwappableAppRouter>)
    ensures
        tenant_routers(tenants) == no_tenants(),
{
    DashMap::new()
}

/// `DashMap::insert`: `host` is served by `router` from now on.
#[verifier::external_body]
fn register(tenants: &mut DashMap<String, SwappableAppRouter>, host: String, router: SwappableAppRouter)
    ensures
        tenant_routers(*final(tenants)) == tenant_routers(*old(tenants)).insert(host@, router),
{
    tenants.insert(host, router);
}

/// `DashMap::get`: a handle on the holder that serves `host`, where the
/// registry has one.
#[verifier::external_body]
fn registered(tenants: &DashMap<String, SwappableAppRouter>, host: &str) -> (router: Option<
    SwappableAppRouter,
>)
    ensures
        match router {
            Some(holder) => tenant_routers(*tenants).contains_key(host@) && holder
                == tenant_routers(*tenants)[host@],
            None => !tenant_routers(*tenants).contains_key(host@),
        },
{
    tenants.get(host).map(|entry| entry.value().clone())
}

/// `String::from_utf8`: the text that `bytes` encode, where they are UTF-8.
#[verifier::external_body]
fn text_of_bytes(bytes: Vec<u8>) -> (text: Option<String>)
    ensures
        text is Some <==> valid_utf8(bytes@),
        text matches Some(t) ==> t@ == decode_utf8(bytes@),
{
    String::from_utf8(bytes).ok()
}

/// A tenant: a host and the holder of its router.
#[derive(Clone)]
pub struct TenentRouter {
    host: String,
    router: SwappableAppRouter,
}

impl TenentRouter {
    /// The tenant that answers to `host` with `router`.
    pub fn new(host: &str, router: SwappableAppRouter) -> (tenant: TenentRouter)
        ensures
            tenant.host() == host@,
            tenant.holder() == router,
    {
        TenentRouter { host: host.to_owned(), router }
    }

    /// The host of the tenant.
    pub closed spec fn host(&self) -> Seq<char> {
        self.host@
    }

    /// The holder of the tenant's router.
    pub closed spec fn holder(&self) -> SwappableAppRouter {
        self.router
    }
}

/// The registry that a list of tenants makes: each host with the holder of
/// the last tenant that names it.
pub open spec fn tenants_model(tenants: Seq<TenentRouter>) -> Map<Seq<char>, SwappableAppRouter>
    decreases tenants.len(),
{
    if tenants.len() == 0 {
        Map::empty()
    } else {
        tenants_model(tenants.drop_last()).insert(tenants.last().host(), tenants.last().holder())
    }
}

/// The tenants of a server.
pub struct AppState {
    routers: DashMap<String, SwappableAppRouter>,
}

impl AppState {
    /// The tenants of the server: for each host, the holder of its router.
    pub closed spec fn routers(&self) -> Map<Seq<char>, SwappableAppRouter> {
        tenant_routers(self.routers)
    }

    /// The hosts that the server answers to.
    pub open spec fn hosts(&self) -> Set<Seq<char>> {
        self.routers().dom()
    }

    /// A server with the tenants of `routes`.
    pub fn new(routes: DashMap<String, SwappableAppRouter>) -> (state: AppState)
        ensures
            state.routers() == tenant_routers(routes),
    {
        AppState { routers: routes }
    }

    /// A server with the given tenants. Where two of them name the same
    /// host, the later one serves it.
    pub fn from_tenants(tenants: &Vec<TenentRouter>) -> (state: AppState)
        ensures
            state.routers() == tenants_model(tenants@),
    {
        let mut map = new_registry();
        let mut i: usize = 0;
        assert(tenants@.take(0) =~= Seq::empty());
        while i < tenants.len()
            invariant
                i <= tenants.len(),
                tenant_routers(map) == tenants_model(tenants@.take(i as int)),
            decreases tenants.len() - i,
        {
            let tenant = &tenants[i];
            register(&mut map, tenant.host.clone(), tenant.router.clone());
            proof {
                assert(tenants@.take(i + 1).drop_last() == tenants@.take(i as int));
                assert(tenants@.take(i + 1).last() == *tenant);
            }
            i += 1;
        }
        assert(tenants@.take(i as int) == tenants@);
        AppState { routers: map }
    }
}

/// The name of a host: what stands before its first `:`, which is all of it
/// where it holds none.
pub open spec fn host_name(host: Seq<char>) -> Seq<char> {
    match first_index(host, ':') {
        Some(i) => host.take(i),
        None => host,
    }
}

/// Takes the port off a host.
pub fn strip_port(host: &str) -> (name: String)
    ensures
        name@ == host_name(host@),
{
    let chars = chars_of(host);
    match find_char(chars.as_slice(), ':') {
        Some(i) => {
            let mut name: Vec<char> = Vec::new();
            let mut k: usize = 0;
            while k < i
                invariant
                    k <= i < chars.len(),
                    name@ == chars@.take(k as int),
                decreases i - k,
            {
                name.push(chars[k]);
                k += 1;
                assert(chars@.take(k as int) == chars@.take(k - 1).push(chars@[k - 1]));
            }
            string_of(name.as_slice())
        },
        None => host.to_owned(),
    }
}

/// Finds the router that serves `host`, port aside, and loads its current
/// snapshot.
pub fn get_router_by_host(host: &str, state: &AppState) -> (r: Result<AppRouter, AppError>)
    ensures
        match r {
            Ok(snapshot) => state.hosts().contains(host_name(host@)) && published(
                state.routers()[host_name(host@)],
                *snapshot.0,
            ),
            Err(e) => !state.hosts().contains(host_name(host@)) && e@ == AppErrorView::HostNotFound(
                host_name(host@),
            ),
        },
{
    let name = strip_port(host);
    match registered(&state.routers, name.as_str()) {
        Some(router) => Ok(router.load()),
        None => Err(AppError::HostNotFound(name)),
    }
}

/// What arrived of a header: its name, and its value where that is text.
pub type Header = (String, Option<String>);

/// The first header at or after `from` whose value is not text.
pub open spec fn first_unreadable(headers: Seq<(Seq<char>, Option<Seq<char>>)>, from: int) -> Option<
    int,
>
    decreases headers.len() - from,
{
    if from < 0 || from >= headers.len() {
        None
    } else if headers[from].1 is None {
        Some(from)
    } else {
        first_unreadable(headers, from + 1)
    }
}

/// Headers as pairs of name and value, for headers that are all text.
pub open spec fn header_pairs(headers: Seq<(Seq<char>, Option<Seq<char>>)>) -> Seq<
    (Seq<char>, Seq<char>),
> {
    Seq::new(headers.len(), |i: int| (headers[i].0, headers[i].1->0))
}

/// The body a handler sees: the text of the bytes where they are UTF-8,
/// and none where they are not or where no body came.
pub open spec fn body_text(body: Option<Seq<u8>>) -> Option<Seq<char>> {
    match body {
        Some(bytes) => if valid_utf8(bytes) {
            Some(decode_utf8(bytes))
        } else {
            None
        },
        None => None,
    }
}

/// A `Req` as plain values.
pub struct ReqView {
    pub method: Seq<char>,
    pub url: Seq<char>,
    pub query: Map<Seq<char>, Seq<char>>,
    pub params: Map<Seq<char>, Seq<char>>,
    pub headers: Map<Seq<char>, Seq<char>>,
    pub body: Option<Seq<char>>,
}

impl View for Req {
    type V = ReqView;

    open spec fn view(&self) -> ReqView {
        ReqView {
            method: self.method@,
            url: self.url@,
            query: self.query@,
            params: self.params@,
            headers: self.headers@,
            body: self.body.deep_view(),
        }
    }
}

/// The request a handler receives, or the failure that keeps it from being
/// made: a header whose value is not text.
pub open spec fn assembled(
    params: Seq<(Seq<char>, Seq<char>)>,
    method: Seq<char>,
    url: Seq<char>,
    query: Seq<(Seq<char>, Seq<char>)>,
    headers: Seq<(Seq<char>, Option<Seq<char>>)>,
    body: Option<Seq<u8>>,
) -> Result<ReqView, AppErrorView> {
    match first_unreadable(headers, 0) {
        Some(i) => Err(AppErrorView::BadRequest(headers[i].0)),
        None => Ok(
            ReqView {
                method,
                url,
                query: map_of(query),
                params: map_of(params),
                headers: map_of(header_pairs(headers)),
                body: body_text(body),
            },
        ),
    }
}

/// The view of an assembled request.
pub open spec fn req_view(r: Result<Req, AppError>) -> Result<ReqView, AppErrorView> {
    match r {
        Ok(req) => Ok(req@),
        Err(e) => Err(e@),
    }
}

/// Assembles the request that a handler receives from the parts of the
/// request that arrived and the parameters of the route that matched.
pub fn assemble_req(
    matched: &RouteMatch<'_>,
    method: &str,
    url: &str,
    query: &Vec<(String, String)>,
    headers: &Vec<Header>,
    body: Option<Vec<u8>>,
) -> (r: Result<Req, AppError>)
    ensures
        req_view(r) == assembled(
            matched.params@,
            method@,
            url@,
            query.deep_view(),
            headers.deep_view(),
            body.deep_view(),
        ),
{
    let ghost all = headers.deep_view();
    let mut pairs: Vec<(String, String)> = Vec::new();
    let mut i: usize = 0;
    while i < headers.len()
        invariant
            i <= headers.len(),
            all == headers.deep_view(),
            first_unreadable(all, i as int) == first_unreadable(all, 0),
            pairs.len() == i,
            pairs.deep_view() == header_pairs(all).take(i as int),
        decreases headers.len() - i,
    {
        assert(all[i as int] == headers@[i as int].deep_view());
        match &headers[i].1 {
            Some(value) => {
                let ghost before = pairs.deep_view();
                let ghost held = pairs@;
                pairs.push((headers[i].0.clone(), value.clone()));
                proof {
                    let after = pairs.deep_view();
                    assert(after.len() == i + 1);
                    assert forall|j: int| 0 <= j < i + 1 implies after[j] == header_pairs(all)[j] by {
                        assert(after[j] == pairs@[j].deep_view());
                        if j < i {
                            assert(before[j] == held[j].deep_view());
                            assert(before[j] == header_pairs(all).take(i as int)[j]);
                        }
                    }
                    assert(after =~= header_pairs(all).take(i + 1));
                }
            },
            None => {
                return Err(AppError::BadRequest(headers[i].0.clone()));
            },
        }
        i += 1;
    }
    assert(header_pairs(all).take(i as int) == header_pairs(all));
    let body = match body {
        Some(bytes) => {
            assert(bytes.deep_view() =~= bytes@);
            text_of_bytes(bytes)
        },
        None => None,
    };
    Ok(
        Req {
            method: method.to_owned(),
            url: url.to_owned(),
            query: StringMap::from_pairs(query),
            params: StringMap::from_pairs(matched.params.pairs()),
            headers: StringMap::from_pairs(&pairs),
            body,
        },
    )
}

/// What is left to do for a request once it has been routed: run `handler`
/// of the script `code` on `req`.
#[derive(Debug, Clone, PartialEq, Eq)]
pub struct Invocation {
    pub code: String,
    pub handler: String,
    pub req: Req,
}

/// A request as it arrived.
#[derive(Debug, Clone, PartialEq, Eq)]
pub struct Incoming {
    pub method: String,
    pub path: String,
    pub url: String,
    pub query: Vec<(String, String)>,
    pub headers: Vec<Header>,
    pub body: Option<Vec<u8>>,
}

/// What routing `incoming` on the snapshot `router` leads to. Script,
/// handler and parameters all come from that one snapshot.
pub open spec fn routed(
    code: Seq<char>,
    router: matchit::Router<crate::router::MethodRoute>,
    incoming: Incoming,
) -> Result<(Seq<char>, Seq<char>, ReqView), AppErrorView> {
    match match_request_spec(router, incoming.method@, incoming.path@) {
        Err(e) => Err(e),
        Ok((handler, params)) => match assembled(
            params,
            incoming.method@,
            incoming.url@,
            incoming.query.deep_view(),
            incoming.headers.deep_view(),
            incoming.body.deep_view(),
        ) {
            Err(e) => Err(e),
            Ok(req) => Ok((code, handler, req)),
        },
    }
}

/// The view of a routed request.
pub open spec fn invocation_view(r: Result<Invocation, AppError>) -> Result<
    (Seq<char>, Seq<char>, ReqView),
    AppErrorView,
> {
    match r {
        Ok(call) => Ok((call.code@, call.handler@, call.req@)),
        Err(e) => Err(e@),
    }
}

/// Routes a request on one snapshot: matches its path and method, and
/// assembles what the handler receives. The parameters of the request carry
/// exactly the names of the matched pattern.
pub fn route_request(router: &AppRouter, incoming: Incoming) -> (r: Result<Invocation, AppError>)
    ensures
        invocation_view(r) == routed(router.0.code@, router.0.router, incoming),
{
    let matched = match router.match_request(incoming.method.as_str(), incoming.path.as_str()) {
        Ok(m) => m,
        Err(e) => {
            return Err(e);
        },
    };
    let req = match assemble_req(
        &matched,
        incoming.method.as_str(),
        incoming.url.as_str(),
        &incoming.query,
        &incoming.headers,
        incoming.body,
    ) {
        Ok(req) => req,
        Err(e) => {
            return Err(e);
        },
    };
    Ok(Invocation { code: router.code().to_owned(), handler: matched.value.to_owned(), req })
}

/// Whether `outcome` is what routing `incoming` leads to on `snapshot`, a
/// snapshot that was stored in `holder`.
pub open spec fn served_by(
    holder: SwappableAppRouter,
    snapshot: AppRouter,
    incoming: Incoming,
    outcome: Result<(Seq<char>, Seq<char>, ReqView), AppErrorView>,
) -> bool {
    published(holder, *snapshot.0) && outcome == routed(
        snapshot.0.code@,
        snapshot.0.router,
        incoming,
    )
}

/// Serves a request up to the call of the script: finds the tenant of
/// `host`, loads its snapshot once and routes the request on it.
pub fn dispatch(state: &AppState, host: &str, incoming: Incoming) -> (r: Result<Invocation, AppError>)
    ensures
        !state.hosts().contains(host_name(host@)) ==> invocation_view(r) == Err::<
            (Seq<char>, Seq<char>, ReqView),
            AppErrorView,
        >(AppErrorView::HostNotFound(host_name(host@))),
        state.hosts().contains(host_name(host@)) ==> exists|snapshot: AppRouter|
            served_by(state.routers()[host_name(host@)], snapshot, incoming, invocation_view(r)),
{
    match get_router_by_host(host, state) {
        Ok(router) => {
            let r = route_request(&router, incoming);
            assert(served_by(state.routers()[host_name(host@)], router, incoming, invocation_view(r)));
            r
        },
        Err(e) => Err(e),
    }
}

} // verus!
