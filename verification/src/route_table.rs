//! The table of routes, kept by `matchit::Router`. The library does not look
//! inside the table: it states what the router holds and what it answers, and
//! proves the rest from that.
use crate::router::MethodRoute;
use crate::text::{chars_of, string_of};
use vstd::prelude::*;

verus! {

#[verifier::external_type_specification]
#[verifier::external_body]
#[verifier::reject_recursive_types(T)]
pub struct ExRouter<T>(matchit::Router<T>);

/// The routes a router holds: for each pattern that was inserted with
/// success, the handlers inserted with it.
pub uninterp spec fn router_routes(router: matchit::Router<MethodRoute>) -> Map<
    Seq<char>,
    Seq<Option<Seq<char>>>,
>;

/// Whether `router` is what `Router::new` and the inserts of `routes`, in
/// this order and each with success, have made, with no other change.
pub uninterp spec fn built_from(router: matchit::Router<MethodRoute>, routes: Seq<Seq<char>>) -> bool;

/// Whether `Router::insert` accepts `route` into a router that was built
/// from `routes`.
pub uninterp spec fn accepts_after(routes: Seq<Seq<char>>, route: Seq<char>) -> bool;

/// What `Router::at` answers for `path`: the pattern of the route that
/// matches, with the parameters of the match in the order of the pattern;
/// `None` where no route matches.
pub uninterp spec fn route_match(router: matchit::Router<MethodRoute>, path: Seq<char>) -> Option<
    (Seq<char>, Seq<(Seq<char>, Seq<char>)>),
>;

/// Why `matchit` refused a route.
#[derive(Debug, Clone, PartialEq, Eq)]
pub enum RouteRejection {
    /// The route collides with the route given, which the router holds.
    Conflict(String),
    /// A path segment holds more than one parameter.
    InvalidParamSegment,
    /// A parameter has no name, or its braces do not match.
    InvalidParam,
    /// A catch-all parameter stands before the end of the route.
    InvalidCatchAll,
    /// A reason this library does not know.
    Other,
}

/// The number of `{` in `route`.
pub open spec fn open_braces(route: Seq<char>) -> nat
    decreases route.len(),
{
    if route.len() == 0 {
        0
    } else {
        open_braces(route.drop_last()) + if route.last() == '{' {
            1nat
        } else {
            0nat
        }
    }
}

/// The most `{` a route may hold. `matchit` numbers the parameters of a
/// route with the letters of the alphabet and gives up beyond them; each of
/// its parameters begins at a `{` of its own, so a route within this limit
/// has no more parameters than letters.
pub const MAX_OPEN_BRACES: usize = 25;

/// The names of the parameters of `route`, scanned from `at`. `open` holds the
/// part read so far of a name that began before `at`. A doubled brace stands
/// for the brace itself, inside a name and outside. This is the reading of
/// the routes that a route table accepts; of a route that it refuses the
/// names say nothing.
pub open spec fn captures_from(route: Seq<char>, at: int, open: Option<Seq<char>>) -> Seq<
    Seq<char>,
>
    decreases route.len() - at,
{
    if at < 0 || at >= route.len() {
        Seq::empty()
    } else {
        let c = route[at];
        let doubled = (c == '{' || c == '}') && at + 1 < route.len() && route[at + 1] == c;
        match open {
            None => if doubled {
                captures_from(route, at + 2, None)
            } else if c == '{' {
                captures_from(route, at + 1, Some(Seq::empty()))
            } else {
                captures_from(route, at + 1, None)
            },
            Some(name) => if doubled {
                captures_from(route, at + 2, Some(name.push(c)))
            } else if c == '}' {
                seq![parameter_name(name)] + captures_from(route, at + 1, None)
            } else {
                captures_from(route, at + 1, Some(name.push(c)))
            },
        }
    }
}

/// The name of a parameter written between braces: a leading `*` marks a
/// catch-all and is no part of the name.
pub open spec fn parameter_name(written: Seq<char>) -> Seq<char> {
    if written.len() > 0 && written[0] == '*' {
        written.skip(1)
    } else {
        written
    }
}

/// The names of the parameters of `route`, `{name}` and `{*name}` alike, in
/// the order they are written.
pub open spec fn capture_names(route: Seq<char>) -> Seq<Seq<char>> {
    captures_from(route, 0, None)
}

/// The keys of a list of parameters.
pub open spec fn param_keys(params: Seq<(Seq<char>, Seq<char>)>) -> Seq<Seq<char>> {
    Seq::new(params.len(), |i: int| params[i].0)
}

/// The names of the parameters of `route`, in the order they are written.
pub fn route_captures(route: &str) -> (names: Vec<String>)
    ensures
        names.deep_view() == capture_names(route@),
{
    let chars = chars_of(route);
    let mut names: Vec<String> = Vec::new();
    let mut name: Vec<char> = Vec::new();
    let mut inside: bool = false;
    let mut at: usize = 0;
    assert(names.deep_view() =~= Seq::empty());
    while at < chars.len()
        invariant
            at <= chars.len(),
            chars@ == route@,
            capture_names(route@) == names.deep_view() + captures_from(
                route@,
                at as int,
                if inside {
                    Some(name@)
                } else {
                    None
                },
            ),
        decreases chars.len() - at,
    {
        let c = chars[at];
        let doubled = (c == '{' || c == '}') && at + 1 < chars.len() && chars[at + 1] == c;
        if inside {
            if doubled {
                name.push(c);
                at += 2;
            } else if c == '}' {
                let ghost held = names.deep_view();
                let ghost written = name@;
                let from: usize = if name.len() > 0 && name[0] == '*' {
                    1
                } else {
                    0
                };
                let mut bare: Vec<char> = Vec::new();
                crate::text::push_from(&mut bare, name.as_slice(), from);
                assert(bare@ =~= parameter_name(written)) by {
                    assert(written.skip(0) == written);
                }
                names.push(string_of(bare.as_slice()));
                assert(names.deep_view() =~= held.push(parameter_name(written)));
                name = Vec::new();
                inside = false;
                at += 1;
            } else {
                name.push(c);
                at += 1;
            }
        } else {
            if doubled {
                at += 2;
            } else if c == '{' {
                name = Vec::new();
                inside = true;
                at += 1;
            } else {
                at += 1;
            }
        }
    }
    names
}

/// No routes at all.
pub open spec fn no_routes() -> Map<Seq<char>, Seq<Option<Seq<char>>>> {
    Map::empty()
}

/// The routes of `router` and the route of `pattern` with the handlers
/// `slots`.
pub open spec fn with_route(
    router: matchit::Router<MethodRoute>,
    pattern: Seq<char>,
    slots: Seq<Option<Seq<char>>>,
) -> Map<Seq<char>, Seq<Option<Seq<char>>>> {
    router_routes(router).insert(pattern, slots)
}

/// `Router::new`: a router that holds no route and was built from none.
#[verifier::external_body]
pub(crate) fn new_router() -> (router: matchit::Router<MethodRoute>)
    ensures
        router_routes(router) == no_routes(),
        built_from(router, Seq::empty()),
{
    matchit::Router::new()
}

/// `Router::insert`. An accepted route joins the routes held; a refused
/// one leaves them as they were. Whether a route is accepted is decided by
/// the routes that the router was built from, in their order, and by the
/// route: the handlers play no part, and `insert` does the same on the same
/// table. Three kinds of call are kept out. A route with more than
/// `MAX_OPEN_BRACES` opening braces: on some of them `insert` panics. The
/// empty route, and any route once the empty route is held: `matchit` takes
/// a router that holds the empty route alone for an empty one, and the next
/// route it accepts takes the place of the empty route.
#[verifier::external_body]
pub(crate) fn insert_route(router: &mut matchit::Router<MethodRoute>, route: &str, value: MethodRoute) -> (r:
    Result<(), RouteRejection>)
    requires
        route@.len() > 0,
        !router_routes(*old(router)).contains_key(Seq::<char>::empty()),
        open_braces(route@) <= MAX_OPEN_BRACES,
    ensures
        forall|held: Seq<Seq<char>>| #[trigger]
            built_from(*old(router), held) ==> (r is Ok <==> accepts_after(held, route@)),
        r is Ok ==> forall|held: Seq<Seq<char>>| #[trigger]
            built_from(*old(router), held) ==> built_from(*final(router), held.push(route@)),
        r is Ok ==> router_routes(*final(router)) == with_route(*old(router), route@, value@),
        r is Err ==> router_routes(*final(router)) == router_routes(*old(router)),
{
    router.insert(route, value).map_err(
        |e| match e {
            matchit::InsertError::Conflict { with } => RouteRejection::Conflict(with),
            matchit::InsertError::InvalidParamSegment => RouteRejection::InvalidParamSegment,
            matchit::InsertError::InvalidParam => RouteRejection::InvalidParam,
            matchit::InsertError::InvalidCatchAll => RouteRejection::InvalidCatchAll,
            _ => RouteRejection::Other,
        },
    )
}

/// `Router::at`. A match is one of the routes held; it comes with that
/// route's handlers and with one parameter for each name in its pattern.
#[verifier::external_body]
pub(crate) fn route_at<'a>(router: &'a matchit::Router<MethodRoute>, path: &str) -> (r: Option<
    (&'a MethodRoute, Vec<(String, String)>),
>)
    ensures
        match r {
            None => route_match(*router, path@) is None,
            Some((value, params)) => {
                &&& route_match(*router, path@) matches Some(hit)
                &&& hit.1 == params.deep_view()
                &&& router_routes(*router).contains_key(hit.0)
                &&& router_routes(*router)[hit.0] == value@
                &&& param_keys(hit.1) == capture_names(hit.0)
            },
        },
{
    match router.at(path) {
        Ok(m) => Some(
            (m.value, m.params.iter().map(|(k, v)| (k.to_string(), v.to_string())).collect()),
        ),
        Err(_) => None,
    }
}

} // verus!
