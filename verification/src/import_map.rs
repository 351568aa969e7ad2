//! Import maps: an ordered list of prefix rewrites applied to a specifier
//! before a loader is chosen.
use crate::path::{extension_of, path_extension};
use crate::text::{chars_of, push_all, push_from, same_chars, starts_with, string_of};
use vstd::prelude::*;

verus! {

/// Key-value entries of an import map, in the order they were written. The
/// first entry whose key is a prefix of a specifier decides its rewrite.
#[derive(Debug, Clone)]
pub struct ImportMap {
    map: Vec<(String, String)>,
}

impl View for ImportMap {
    type V = Seq<(Seq<char>, Seq<char>)>;

    closed spec fn view(&self) -> Seq<(Seq<char>, Seq<char>)> {
        self.map.deep_view()
    }
}

/// The first entry at or after `from` whose key is a prefix of `s`.
pub open spec fn first_match_from(map: Seq<(Seq<char>, Seq<char>)>, s: Seq<char>, from: int) -> Option<
    int,
>
    decreases map.len() - from,
{
    if from < 0 || from >= map.len() {
        None
    } else if map[from].0.is_prefix_of(s) {
        Some(from)
    } else {
        first_match_from(map, s, from + 1)
    }
}

/// The first entry whose key is a prefix of `s`.
pub open spec fn first_match(map: Seq<(Seq<char>, Seq<char>)>, s: Seq<char>) -> Option<int> {
    first_match_from(map, s, 0)
}

/// A target that begins with `./` has its leading `.` replaced by the working
/// directory; any other target stands as written.
pub open spec fn anchored(target: Seq<char>, cwd: Seq<char>) -> Seq<char> {
    if seq!['.', '/'].is_prefix_of(target) {
        cwd + target.skip(1)
    } else {
        target
    }
}

/// `s` with its leading `base` replaced by `target`.
pub open spec fn rewritten(s: Seq<char>, base: Seq<char>, target: Seq<char>) -> Seq<char> {
    target + s.skip(base.len() as int)
}

/// What a lookup of `s` yields, given the extension `ext` of `s`. A specifier
/// that is literally its key followed by `.` and its own extension is left
/// alone; every other match is rewritten.
pub open spec fn lookup_spec(
    map: Seq<(Seq<char>, Seq<char>)>,
    cwd: Seq<char>,
    s: Seq<char>,
    ext: Option<Seq<char>>,
) -> Option<Seq<char>> {
    match first_match(map, s) {
        None => None,
        Some(i) => {
            let base = map[i].0;
            let target = anchored(map[i].1, cwd);
            match ext {
                Some(e) if s == base + seq!['.'] + e => None,
                _ => Some(rewritten(s, base, target)),
            }
        },
    }
}

/// The specifier that resolution goes on with: the rewrite where there is
/// one, else `s` itself.
pub open spec fn mapped(map: Seq<(Seq<char>, Seq<char>)>, cwd: Seq<char>, s: Seq<char>) -> Seq<
    char,
> {
    match lookup_spec(map, cwd, s, path_extension(s)) {
        Some(r) => r,
        None => s,
    }
}

/// `first_match` finds the least index whose key is a prefix of `s`, and
/// nothing exactly when no key is.
pub proof fn lemma_first_match(map: Seq<(Seq<char>, Seq<char>)>, s: Seq<char>)
    ensures
        match first_match(map, s) {
            Some(i) => {
                &&& 0 <= i < map.len()
                &&& map[i].0.is_prefix_of(s)
                &&& forall|j: int| 0 <= j < i ==> !map[j].0.is_prefix_of(s)
            },
            None => forall|j: int| 0 <= j < map.len() ==> !map[j].0.is_prefix_of(s),
        },
{
    lemma_first_match_from(map, s, 0);
}

proof fn lemma_first_match_from(map: Seq<(Seq<char>, Seq<char>)>, s: Seq<char>, from: int)
    requires
        0 <= from,
    ensures
        match first_match_from(map, s, from) {
            Some(i) => {
                &&& from <= i < map.len()
                &&& map[i].0.is_prefix_of(s)
                &&& forall|j: int| from <= j < i ==> !map[j].0.is_prefix_of(s)
            },
            None => forall|j: int| from <= j < map.len() ==> !map[j].0.is_prefix_of(s),
        },
    decreases map.len() - from,
{
    if from < map.len() && !map[from].0.is_prefix_of(s) {
        lemma_first_match_from(map, s, from + 1);
    }
}

/// Import-map stability: once a specifier with a matching entry has been
/// mapped, mapping the result again leaves it unchanged, provided no key of
/// the map is a prefix of that result.
pub proof fn lemma_mapping_is_stable(map: Seq<(Seq<char>, Seq<char>)>, cwd: Seq<char>, s: Seq<char>)
    requires
        first_match(map, s) is Some,
        forall|j: int| 0 <= j < map.len() ==> !(#[trigger] map[j]).0.is_prefix_of(mapped(map, cwd, s)),
    ensures
        mapped(map, cwd, mapped(map, cwd, s)) == mapped(map, cwd, s),
{
    lemma_first_match(map, mapped(map, cwd, s));
}

impl ImportMap {
    /// An import map with the given entries, in the given order.
    pub fn new(entries: Vec<(String, String)>) -> (m: ImportMap)
        ensures
            m@ == entries.deep_view(),
    {
        ImportMap { map: entries }
    }

    /// Tries to match a specifier against the entries, with `cwd` standing
    /// for the working directory in targets that begin with `./`.
    pub fn lookup(&self, specifier: &str, cwd: &str) -> (r: Option<String>)
        ensures
            r.deep_view() == lookup_spec(self@, cwd@, specifier@, path_extension(specifier@)),
    {
        let ext = extension_of(specifier);
        self.lookup_with(specifier, cwd, &ext)
    }

    /// The lookup itself, for a specifier whose extension is `ext`.
    pub fn lookup_with(&self, specifier: &str, cwd: &str, ext: &Option<String>) -> (r: Option<
        String,
    >)
        ensures
            r.deep_view() == lookup_spec(self@, cwd@, specifier@, ext.deep_view()),
    {
        let s = chars_of(specifier);
        let mut i: usize = 0;
        while i < self.map.len()
            invariant
                i <= self.map.len(),
                s@ == specifier@,
                first_match_from(self@, s@, i as int) == first_match(self@, s@),
            decreases self.map.len() - i,
        {
            let base = chars_of(self.map[i].0.as_str());
            assert(self@[i as int] == self.map@[i as int].deep_view());
            if starts_with(s.as_slice(), base.as_slice()) {
                let target = chars_of(self.map[i].1.as_str());
                let dot_slash = [ '.', '/' ];
                let mut out: Vec<char> = Vec::new();
                if starts_with(target.as_slice(), dot_slash.as_slice()) {
                    let dir = chars_of(cwd);
                    push_all(&mut out, dir.as_slice());
                    push_from(&mut out, target.as_slice(), 1);
                } else {
                    push_all(&mut out, target.as_slice());
                }
                assert(dot_slash@ =~= seq!['.', '/']);
                assert(out@ == anchored(target@, cwd@));
                match ext {
                    Some(e) => {
                        let mut literal: Vec<char> = Vec::new();
                        push_all(&mut literal, base.as_slice());
                        literal.push('.');
                        let e_chars = chars_of(e.as_str());
                        push_all(&mut literal, e_chars.as_slice());
                        assert(literal@ == base@ + seq!['.'] + e@);
                        if same_chars(s.as_slice(), literal.as_slice()) {
                            return None;
                        }
                    },
                    None => {},
                }
                push_from(&mut out, s.as_slice(), base.len());
                return Some(string_of(out.as_slice()));
            }
            i += 1;
        }
        None
    }
}

} // verus!
