//! The project's configuration: its name and, for each path pattern, the
//! handlers of its methods.
use crate::text::{chars_of, same_chars};
use vstd::prelude::*;

verus! {

/// The nine methods a route can be declared for.
#[derive(Debug, Clone, Copy, PartialEq, Eq, Hash, Structural)]
pub enum HttpMethod {
    Get,
    Head,
    Delete,
    Options,
    Patch,
    Post,
    Put,
    Trace,
    Connect,
}

/// The upper-case form of an ASCII letter; every other character is itself.
pub open spec fn ascii_upper(c: char) -> char {
    if 'a' <= c && c <= 'z' {
        ((c as u8) - 32) as char
    } else {
        c
    }
}

/// `s` with its ASCII letters in upper case.
pub open spec fn ascii_upper_text(s: Seq<char>) -> Seq<char> {
    Seq::new(s.len(), |i: int| ascii_upper(s[i]))
}

/// The upper-case form of an ASCII letter; every other character is itself.
pub fn to_ascii_upper(c: char) -> (u: char)
    ensures
        u == ascii_upper(c),
{
    if 'a' <= c && c <= 'z' {
        ((c as u8) - 32) as char
    } else {
        c
    }
}

impl HttpMethod {
    /// The method's name, in upper case.
    pub open spec fn name(self) -> Seq<char> {
        match self {
            HttpMethod::Get => "GET"@,
            HttpMethod::Head => "HEAD"@,
            HttpMethod::Delete => "DELETE"@,
            HttpMethod::Options => "OPTIONS"@,
            HttpMethod::Patch => "PATCH"@,
            HttpMethod::Post => "POST"@,
            HttpMethod::Put => "PUT"@,
            HttpMethod::Trace => "TRACE"@,
            HttpMethod::Connect => "CONNECT"@,
        }
    }

    /// The method's name, in upper case.
    pub fn as_str(&self) -> (s: &'static str)
        ensures
            s@ == self.name(),
    {
        match self {
            HttpMethod::Get => "GET",
            HttpMethod::Head => "HEAD",
            HttpMethod::Delete => "DELETE",
            HttpMethod::Options => "OPTIONS",
            HttpMethod::Patch => "PATCH",
            HttpMethod::Post => "POST",
            HttpMethod::Put => "PUT",
            HttpMethod::Trace => "TRACE",
            HttpMethod::Connect => "CONNECT",
        }
    }

    /// The method's place among the nine, from 0.
    pub open spec fn slot(self) -> int {
        match self {
            HttpMethod::Get => 0,
            HttpMethod::Head => 1,
            HttpMethod::Delete => 2,
            HttpMethod::Options => 3,
            HttpMethod::Patch => 4,
            HttpMethod::Post => 5,
            HttpMethod::Put => 6,
            HttpMethod::Trace => 7,
            HttpMethod::Connect => 8,
        }
    }

    /// The method at place `k`.
    pub open spec fn at(k: int) -> HttpMethod {
        if k == 0 {
            HttpMethod::Get
        } else if k == 1 {
            HttpMethod::Head
        } else if k == 2 {
            HttpMethod::Delete
        } else if k == 3 {
            HttpMethod::Options
        } else if k == 4 {
            HttpMethod::Patch
        } else if k == 5 {
            HttpMethod::Post
        } else if k == 6 {
            HttpMethod::Put
        } else if k == 7 {
            HttpMethod::Trace
        } else {
            HttpMethod::Connect
        }
    }

    /// The nine methods, each at its place.
    pub fn all() -> (methods: [HttpMethod; 9])
        ensures
            forall|m: HttpMethod| #[trigger] methods@[m.slot()] == m,
    {
        [
            HttpMethod::Get,
            HttpMethod::Head,
            HttpMethod::Delete,
            HttpMethod::Options,
            HttpMethod::Patch,
            HttpMethod::Post,
            HttpMethod::Put,
            HttpMethod::Trace,
            HttpMethod::Connect,
        ]
    }

    /// The method whose name is `s`.
    pub open spec fn named(s: Seq<char>) -> Option<HttpMethod> {
        if s == HttpMethod::Get.name() {
            Some(HttpMethod::Get)
        } else if s == HttpMethod::Head.name() {
            Some(HttpMethod::Head)
        } else if s == HttpMethod::Delete.name() {
            Some(HttpMethod::Delete)
        } else if s == HttpMethod::Options.name() {
            Some(HttpMethod::Options)
        } else if s == HttpMethod::Patch.name() {
            Some(HttpMethod::Patch)
        } else if s == HttpMethod::Post.name() {
            Some(HttpMethod::Post)
        } else if s == HttpMethod::Put.name() {
            Some(HttpMethod::Put)
        } else if s == HttpMethod::Trace.name() {
            Some(HttpMethod::Trace)
        } else if s == HttpMethod::Connect.name() {
            Some(HttpMethod::Connect)
        } else {
            None
        }
    }

    /// The method that `s` names, letter case aside.
    pub open spec fn parse_spec(s: Seq<char>) -> Option<HttpMethod> {
        HttpMethod::named(ascii_upper_text(s))
    }

    /// The method whose name is exactly `name`.
    fn by_name(name: &[char]) -> (r: Option<HttpMethod>)
        ensures
            r == HttpMethod::named(name@),
    {
        let methods = HttpMethod::all();
        let mut k: usize = 0;
        while k < 9
            invariant
                k <= 9,
                forall|m: HttpMethod| #[trigger] methods@[m.slot()] == m,
                forall|m: HttpMethod| m.slot() < k ==> name@ != #[trigger] m.name(),
            decreases 9 - k,
        {
            let m = methods[k];
            let candidate = chars_of(m.as_str());
            if same_chars(name, candidate.as_slice()) {
                proof {
                    lemma_names_differ();
                }
                return Some(m);
            }
            assert forall|m2: HttpMethod| m2.slot() < k + 1 implies name@ != #[trigger] m2.name() by {
                if m2.slot() == k {
                    assert(methods@[m2.slot()] == m2);
                }
            }
            k += 1;
        }
        None
    }

    /// Reads the method of a request from its name, which is in upper case.
    pub fn from_name(name: &str) -> (r: Option<HttpMethod>)
        ensures
            r == HttpMethod::named(name@),
    {
        let raw = chars_of(name);
        HttpMethod::by_name(raw.as_slice())
    }

    /// Reads a method from its name as a configuration writes it. Letter case
    /// does not matter; a name that is none of the nine is refused.
    pub fn parse(s: &str) -> (r: Option<HttpMethod>)
        ensures
            r == HttpMethod::parse_spec(s@),
    {
        let raw = chars_of(s);
        let mut upper: Vec<char> = Vec::new();
        let mut i: usize = 0;
        while i < raw.len()
            invariant
                i <= raw.len(),
                upper@ == ascii_upper_text(raw@).take(i as int),
            decreases raw.len() - i,
        {
            upper.push(to_ascii_upper(raw[i]));
            i += 1;
            assert(ascii_upper_text(raw@).take(i as int) == ascii_upper_text(raw@).take(i - 1).push(
                ascii_upper(raw@[i - 1]),
            ));
        }
        assert(upper@ == ascii_upper_text(s@));
        HttpMethod::by_name(upper.as_slice())
    }
}

/// No two methods share a name.
pub proof fn lemma_names_differ()
    ensures
        forall|a: HttpMethod, b: HttpMethod| a != b ==> #[trigger] a.name() != #[trigger] b.name(),
{
    reveal_strlit("GET");
    reveal_strlit("HEAD");
    reveal_strlit("DELETE");
    reveal_strlit("OPTIONS");
    reveal_strlit("PATCH");
    reveal_strlit("POST");
    reveal_strlit("PUT");
    reveal_strlit("TRACE");
    reveal_strlit("CONNECT");
    assert forall|a: HttpMethod, b: HttpMethod| a != b implies #[trigger] a.name() != #[trigger] b.name() by {
        if a.name().len() == b.name().len() {
            assert(a.name()[0] != b.name()[0] || a.name()[1] != b.name()[1]);
        }
    }
}

/// One line of a route's declaration: the handler of one method.
#[derive(Debug, Clone, PartialEq, Eq)]
pub struct ProjectRoute {
    pub method: HttpMethod,
    pub handler: String,
}

impl View for ProjectRoute {
    type V = (HttpMethod, Seq<char>);

    open spec fn view(&self) -> (HttpMethod, Seq<char>) {
        (self.method, self.handler@)
    }
}

impl DeepView for ProjectRoute {
    type V = (HttpMethod, Seq<char>);

    open spec fn deep_view(&self) -> (HttpMethod, Seq<char>) {
        self@
    }
}

/// The routes of a project: path patterns in the order of their declaration,
/// each with the handlers of its methods.
pub type ProjectRoutes = Vec<(String, Vec<ProjectRoute>)>;

/// A project's configuration.
#[derive(Debug, Clone, PartialEq, Eq)]
pub struct ProjectConfig {
    pub name: String,
    pub routes: ProjectRoutes,
}


/// A route's entries as a configuration file writes them: the name of a
/// method and the name of a handler.
pub type RawEntries = Vec<(String, String)>;

/// A method name that is none of the nine: the pattern it was written
/// under and the name itself.
#[derive(Debug, Clone, PartialEq, Eq)]
pub struct InvalidMethod {
    pub path: String,
    pub method: String,
}

/// The first entry at or after `from` whose method name is none of the nine.
pub open spec fn first_unknown_method(entries: Seq<(Seq<char>, Seq<char>)>, from: int) -> Option<int>
    decreases entries.len() - from,
{
    if from < 0 || from >= entries.len() {
        None
    } else if HttpMethod::parse_spec(entries[from].0) is None {
        Some(from)
    } else {
        first_unknown_method(entries, from + 1)
    }
}

/// The entries that `raw` declares, for method names that are all known.
pub open spec fn read_entries(raw: Seq<(Seq<char>, Seq<char>)>) -> Seq<(HttpMethod, Seq<char>)> {
    Seq::new(raw.len(), |i: int| (HttpMethod::parse_spec(raw[i].0)->0, raw[i].1))
}

/// The first route at or after `from` that holds an unknown method name.
pub open spec fn first_bad_route(routes: Seq<(Seq<char>, Seq<(Seq<char>, Seq<char>)>)>, from: int) -> Option<
    int,
>
    decreases routes.len() - from,
{
    if from < 0 || from >= routes.len() {
        None
    } else if first_unknown_method(routes[from].1, 0) is Some {
        Some(from)
    } else {
        first_bad_route(routes, from + 1)
    }
}

/// The routes that `raw` declares, for method names that are all known.
pub open spec fn read_routes(raw: Seq<(Seq<char>, Seq<(Seq<char>, Seq<char>)>)>) -> Seq<
    (Seq<char>, Seq<(HttpMethod, Seq<char>)>),
> {
    Seq::new(raw.len(), |i: int| (raw[i].0, read_entries(raw[i].1)))
}

/// Reads the entries of one route. `Err(i)` says that entry `i` is the
/// first whose method name is none of the nine.
pub fn parse_entries(raw: &RawEntries) -> (r: Result<Vec<ProjectRoute>, usize>)
    ensures
        match r {
            Ok(entries) => first_unknown_method(raw.deep_view(), 0) is None && entries.deep_view()
                == read_entries(raw.deep_view()),
            Err(i) => first_unknown_method(raw.deep_view(), 0) == Some(i as int) && i < raw.len(),
        },
{
    let ghost all = raw.deep_view();
    let mut entries: Vec<ProjectRoute> = Vec::new();
    let mut i: usize = 0;
    while i < raw.len()
        invariant
            i <= raw.len(),
            all == raw.deep_view(),
            entries.len() == i,
            first_unknown_method(all, i as int) == first_unknown_method(all, 0),
            forall|j: int| 0 <= j < i ==> (#[trigger] entries@[j])@ == read_entries(all)[j],
        decreases raw.len() - i,
    {
        assert(all[i as int] == raw@[i as int].deep_view());
        match HttpMethod::parse(raw[i].0.as_str()) {
            Some(method) => {
                entries.push(ProjectRoute { method, handler: raw[i].1.clone() });
            },
            None => {
                return Err(i);
            },
        }
        i += 1;
    }
    assert(entries.deep_view() =~= read_entries(all));
    Ok(entries)
}

impl ProjectConfig {
    /// Reads a configuration from the text of its parts. A method may be
    /// written in any letter case; the first method name that is none of the
    /// nine refuses the configuration.
    pub fn from_raw(name: String, routes: &Vec<(String, RawEntries)>) -> (r: Result<
        ProjectConfig,
        InvalidMethod,
    >)
        ensures
            match r {
                Ok(config) => {
                    &&& first_bad_route(routes.deep_view(), 0) is None
                    &&& config.name@ == name@
                    &&& config.routes.deep_view() == read_routes(routes.deep_view())
                },
                Err(e) => {
                    &&& first_bad_route(routes.deep_view(), 0) matches Some(i)
                    &&& e.path@ == routes.deep_view()[i].0
                    &&& first_unknown_method(routes.deep_view()[i].1, 0) matches Some(k)
                    &&& e.method@ == routes.deep_view()[i].1[k].0
                },
            },
    {
        let ghost all = routes.deep_view();
        let mut read: ProjectRoutes = Vec::new();
        let mut i: usize = 0;
        while i < routes.len()
            invariant
                i <= routes.len(),
                all == routes.deep_view(),
                read.len() == i,
                first_bad_route(all, i as int) == first_bad_route(all, 0),
                forall|j: int| 0 <= j < i ==> (#[trigger] read@[j]).deep_view() == read_routes(all)[j],
            decreases routes.len() - i,
        {
            assert(all[i as int] == routes@[i as int].deep_view());
            match parse_entries(&routes[i].1) {
                Ok(entries) => {
                    read.push((routes[i].0.clone(), entries));
                },
                Err(k) => {
                    assert(routes[i as int].1.deep_view()[k as int] == routes[i as int].1@[k as int].deep_view());
                    return Err(
                        InvalidMethod {
                            path: routes[i].0.clone(),
                            method: routes[i].1[k].0.clone(),
                        },
                    );
                },
            }
            i += 1;
        }
        assert(read.deep_view() =~= read_routes(all));
        Ok(ProjectConfig { name, routes: read })
    }
}

} // verus!
