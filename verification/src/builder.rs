//! Building a project: the hash of its sources names the artifact, and an
//! artifact that is already there is not built again.
use crate::path::{comes_before, path_before};
use crate::text::{chars_of, push_all, replace_all, replaced, same_chars, string_of, take_chars};
use vstd::prelude::*;

verus! {

/// The directory that holds the artifacts.
pub const BUILD_DIR: &'static str = ".build";

/// The entry point of a project.
pub const ENTRY_POINT: &'static str = "main.ts";

/// The number of characters of the hash that name an artifact.
pub const HASH_LEN: usize = 16;

#[verifier::external_type_specification]
#[verifier::external_body]
pub struct ExHasher(blake3::Hasher);

/// The bytes that a hasher has taken in, in the order it took them.
pub uninterp spec fn hasher_input(hasher: blake3::Hasher) -> Seq<u8>;

/// The BLAKE3 hash of `input`, as `Hash::to_hex` writes it: 64 characters.
pub uninterp spec fn blake3_hex(input: Seq<u8>) -> Seq<char>;

/// `Hasher::new`: a hasher that has taken in nothing.
#[verifier::external_body]
fn new_hasher() -> (hasher: blake3::Hasher)
    ensures
        hasher_input(hasher) == Seq::<u8>::empty(),
{
    blake3::Hasher::new()
}

/// `Hasher::update`: the hasher takes in `bytes` after what it has.
#[verifier::external_body]
fn feed(hasher: &mut blake3::Hasher, bytes: &[u8])
    ensures
        hasher_input(*final(hasher)) == hasher_input(*old(hasher)) + bytes@,
{
    hasher.update(bytes);
}

/// `Hasher::finalize`, written out by `Hash::to_hex`: the hash of what the
/// hasher has taken in, in 64 digits of `0123456789abcdef`.
#[verifier::external_body]
fn hex_digest(hasher: &blake3::Hasher) -> (hex: String)
    ensures
        hex@ == blake3_hex(hasher_input(*hasher)),
        hex@.len() == 64,
        forall|i: int| 0 <= i < 64 ==> is_hex_digit(#[trigger] hex@[i]),
{
    hasher.finalize().to_hex().to_string()
}

/// Whether `c` is one of `0123456789abcdef`.
pub open spec fn is_hex_digit(c: char) -> bool {
    ('0' <= c && c <= '9') || ('a' <= c && c <= 'f')
}

/// The contents of `files`, one after the other.
pub open spec fn joined(files: Seq<Seq<u8>>) -> Seq<u8>
    decreases files.len(),
{
    if files.len() == 0 {
        Seq::empty()
    } else {
        joined(files.drop_last()) + files.last()
    }
}

/// The hash of `files`: the first `len` characters of the BLAKE3 hash of
/// their contents, taken in the given order, and all 64 where `len` is more.
pub open spec fn hash_of(files: Seq<Seq<u8>>, len: int) -> Seq<char> {
    blake3_hex(joined(files)).take(if len <= 64 { len } else { 64 })
}

/// Hashes the contents of `files`, in the given order, and keeps the first
/// `len` characters of the hash.
pub fn calc_hash_for_files(files: &Vec<Vec<u8>>, len: usize) -> (hash: String)
    ensures
        hash@ == hash_of(files.deep_view(), len as int),
        hash@.len() == if len <= 64 { len as int } else { 64 },
        forall|i: int| 0 <= i < hash@.len() ==> is_hex_digit(#[trigger] hash@[i]),
{
    let ghost all = files.deep_view();
    let mut hasher = new_hasher();
    let mut i: usize = 0;
    while i < files.len()
        invariant
            i <= files.len(),
            all == files.deep_view(),
            hasher_input(hasher) == joined(all.take(i as int)),
        decreases files.len() - i,
    {
        proof {
            assert(all[i as int] =~= files@[i as int]@);
            assert(all.take(i + 1).drop_last() == all.take(i as int));
            assert(all.take(i + 1).last() == all[i as int]);
        }
        feed(&mut hasher, files[i].as_slice());
        i += 1;
    }
    assert(all.take(i as int) == all);
    let hex = chars_of(hex_digest(&hasher).as_str());
    let head = take_chars(hex.as_slice(), len);
    string_of(head.as_slice())
}

/// The hash that names the artifact of a project whose sources hold `files`.
pub fn calc_project_hash(files: &Vec<Vec<u8>>) -> (hash: String)
    ensures
        hash@ == hash_of(files.deep_view(), HASH_LEN as int),
        hash@.len() == HASH_LEN,
        forall|i: int| 0 <= i < hash@.len() ==> is_hex_digit(#[trigger] hash@[i]),
{
    calc_hash_for_files(files, HASH_LEN)
}

/// The pattern that finds the files under `dir` whose extension is `ext`.
pub open spec fn glob_rule_spec(dir: Seq<char>, ext: Seq<char>) -> Seq<char> {
    dir + "/**/*."@ + ext
}

/// The pattern that finds the files under `dir` whose extension is `ext`.
pub fn glob_rule(dir: &str, ext: &str) -> (rule: String)
    ensures
        rule@ == glob_rule_spec(dir@, ext@),
{
    let mut rule = chars_of(dir);
    let middle = chars_of("/**/*.");
    let tail = chars_of(ext);
    push_all(&mut rule, middle.as_slice());
    push_all(&mut rule, tail.as_slice());
    string_of(rule.as_slice())
}

/// The patterns that find the sources of a project: one for each extension,
/// in the order of `exts`.
pub fn get_files_with_exts(dir: &str, exts: &Vec<&str>) -> (rules: Vec<String>)
    ensures
        rules.len() == exts.len(),
        forall|i: int| 0 <= i < exts.len() ==> (#[trigger] rules@[i])@ == glob_rule_spec(dir@, exts@[i]@),
{
    let mut rules: Vec<String> = Vec::new();
    let mut i: usize = 0;
    while i < exts.len()
        invariant
            i <= exts.len(),
            rules.len() == i,
            forall|j: int| 0 <= j < i ==> (#[trigger] rules@[j])@ == glob_rule_spec(dir@, exts@[j]@),
        decreases exts.len() - i,
    {
        rules.push(glob_rule(dir, exts[i]));
        i += 1;
    }
    rules
}

/// Whether two texts name the same path: they are the same text, or
/// neither comes before the other.
pub open spec fn same_path(a: Seq<char>, b: Seq<char>) -> bool {
    a == b || (!path_before(a, b) && !path_before(b, a))
}

/// Each path comes before the paths after it.
pub open spec fn ascending(paths: Seq<Seq<char>>) -> bool {
    forall|i: int, j: int| 0 <= i < j < paths.len() ==> path_before(paths[i], paths[j])
}

/// Whether `paths` holds `path`.
pub open spec fn among(paths: Seq<Seq<char>>, path: Seq<char>) -> bool {
    exists|k: int| 0 <= k < paths.len() && #[trigger] paths[k] == path
}

/// Whether `paths` holds a text that names the same path as `path`.
pub open spec fn listed(paths: Seq<Seq<char>>, path: Seq<char>) -> bool {
    exists|k: int| 0 <= k < paths.len() && same_path(path, #[trigger] paths[k])
}

/// The sources of a project in the order in which they are hashed: the
/// paths that were found, each path once, in ascending order of path.
pub fn sorted_sources(found: &Vec<String>) -> (sorted: Vec<String>)
    ensures
        ascending(sorted.deep_view()),
        forall|k: int|
            0 <= k < sorted.len() ==> among(found.deep_view(), #[trigger] sorted.deep_view()[k]),
        forall|m: int|
            0 <= m < found.len() ==> listed(sorted.deep_view(), #[trigger] found.deep_view()[m]),
{
    let ghost all = found.deep_view();
    let mut sorted: Vec<String> = Vec::new();
    let mut i: usize = 0;
    while i < found.len()
        invariant
            i <= found.len(),
            all == found.deep_view(),
            ascending(sorted.deep_view()),
            forall|k: int| 0 <= k < sorted.len() ==> among(all, #[trigger] sorted.deep_view()[k]),
            forall|m: int| 0 <= m < i ==> listed(sorted.deep_view(), #[trigger] all[m]),
        decreases found.len() - i,
    {
        let path = found[i].as_str();
        let ghost held = sorted.deep_view();
        assert(all[i as int] == path@);
        let mut k: usize = 0;
        while k < sorted.len() && comes_before(sorted[k].as_str(), path)
            invariant
                k <= sorted.len(),
                held == sorted.deep_view(),
                forall|j: int| 0 <= j < k ==> path_before(held[j], path@),
            decreases sorted.len() - k,
        {
            assert(held[k as int] == sorted@[k as int]@);
            k += 1;
        }
        let fresh = if k < sorted.len() {
            assert(held[k as int] == sorted@[k as int]@);
            comes_before(path, sorted[k].as_str())
        } else {
            true
        };
        if fresh {
            sorted.insert(k, found[i].clone());
            proof {
                let now = sorted.deep_view();
                assert(now =~= held.insert(k as int, path@));
                assert forall|a: int, b: int| 0 <= a < b < now.len() implies path_before(
                    now[a],
                    now[b],
                ) by {
                    if b < k {
                        assert(now[a] == held[a] && now[b] == held[b]);
                    } else if b == k {
                        assert(now[a] == held[a]);
                    } else if a < k {
                        assert(now[a] == held[a] && now[b] == held[b - 1]);
                    } else if a == k {
                        assert(now[b] == held[b - 1]);
                        if b - 1 > k {
                            assert(path_before(held[k as int], held[b - 1]));
                        }
                    } else {
                        assert(now[a] == held[a - 1] && now[b] == held[b - 1]);
                    }
                }
                assert forall|q: int| 0 <= q < now.len() implies among(all, #[trigger] now[q]) by {
                    if q < k {
                        assert(now[q] == held[q]);
                    } else if q == k {
                        assert(all[i as int] == now[q]);
                    } else {
                        assert(now[q] == held[q - 1]);
                    }
                }
                assert forall|m: int| 0 <= m < i + 1 implies listed(now, #[trigger] all[m]) by {
                    if m == i {
                        assert(same_path(all[m], now[k as int]));
                    } else {
                        let w = choose|w: int| 0 <= w < held.len() && same_path(all[m], #[trigger] held[w]);
                        if w < k {
                            assert(now[w] == held[w]);
                        } else {
                            assert(now[w + 1] == held[w]);
                        }
                    }
                }
            }
        } else {
            proof {
                assert(same_path(path@, held[k as int]));
            }
        }
        i += 1;
    }
    sorted
}

/// The path of the artifact named by `hash`.
pub open spec fn artifact_path_spec(hash: Seq<char>) -> Seq<char> {
    BUILD_DIR@ + "/"@ + hash + ".mjs"@
}

/// The path of the artifact named by `hash`.
pub fn artifact_path(hash: &str) -> (path: String)
    ensures
        path@ == artifact_path_spec(hash@),
{
    let mut path = chars_of(BUILD_DIR);
    let slash = chars_of("/");
    let name = chars_of(hash);
    let ext = chars_of(".mjs");
    push_all(&mut path, slash.as_slice());
    push_all(&mut path, name.as_slice());
    push_all(&mut path, ext.as_slice());
    string_of(path.as_slice())
}

/// The path of the configuration kept beside an artifact: the artifact's
/// path with `.mjs` replaced by `.yml`.
pub open spec fn config_path_spec(artifact: Seq<char>) -> Seq<char> {
    replaced(artifact, ".mjs"@, ".yml"@)
}

/// The path of the configuration kept beside an artifact.
pub fn config_path(artifact: &str) -> (path: String)
    ensures
        path@ == config_path_spec(artifact@),
{
    let whole = chars_of(artifact);
    let from = chars_of(".mjs");
    let to = chars_of(".yml");
    let path = replace_all(whole.as_slice(), from.as_slice(), to.as_slice());
    string_of(path.as_slice())
}

/// Where `from` begins at none of the first `n` positions of `s`, replacing
/// leaves the first `n` characters as they are.
proof fn lemma_replaced_after(s: Seq<char>, from: Seq<char>, to: Seq<char>, n: int)
    requires
        0 <= n <= s.len(),
        from.len() > 0,
        forall|i: int| 0 <= i < n ==> !from.is_prefix_of(#[trigger] s.skip(i)),
    ensures
        replaced(s, from, to) == s.take(n) + replaced(s.skip(n), from, to),
    decreases n,
{
    if n == 0 {
        assert(s.skip(0) == s);
        assert(s.take(0) + replaced(s, from, to) == replaced(s, from, to));
    } else {
        assert(s.skip(0) == s);
        assert(!from.is_prefix_of(s));
        let rest = s.skip(1);
        assert forall|i: int| 0 <= i < n - 1 implies !from.is_prefix_of(#[trigger] rest.skip(i)) by {
            assert(rest.skip(i) == s.skip(i + 1));
        }
        if s.len() < from.len() {
            assert(rest.len() < from.len());
            lemma_replaced_after(rest, from, to, n - 1);
            assert(replaced(rest, from, to) == rest);
            assert(replaced(rest.skip(n - 1), from, to) == rest.skip(n - 1));
            assert(s.skip(n) == rest.skip(n - 1));
            assert(s.take(n) + s.skip(n) == s);
        } else {
            lemma_replaced_after(rest, from, to, n - 1);
            assert(rest.skip(n - 1) == s.skip(n));
            assert(seq![s[0]] + rest.take(n - 1) == s.take(n));
            assert(seq![s[0]] + (rest.take(n - 1) + replaced(s.skip(n), from, to)) == s.take(n)
                + replaced(s.skip(n), from, to));
        }
    }
}

/// The configuration of an artifact carries the artifact's hash: for a hash
/// without `.`, as every hash of a project is, its path is the artifact's
/// with the ending `.yml` in place of `.mjs`.
pub proof fn lemma_config_beside_artifact(hash: Seq<char>)
    requires
        forall|i: int| 0 <= i < hash.len() ==> hash[i] != '.',
    ensures
        config_path_spec(artifact_path_spec(hash)) == BUILD_DIR@ + "/"@ + hash + ".yml"@,
{
    reveal_strlit(".build");
    reveal_strlit("/");
    reveal_strlit(".mjs");
    reveal_strlit(".yml");
    let stem = BUILD_DIR@ + "/"@ + hash;
    let whole = stem + ".mjs"@;
    let n = stem.len() as int;
    assert forall|i: int| 0 <= i < n implies !".mjs"@.is_prefix_of(#[trigger] whole.skip(i)) by {
        let tail = whole.skip(i);
        if ".mjs"@.is_prefix_of(tail) {
            assert(tail.subrange(0, 4)[0] == '.');
            assert(tail.subrange(0, 4)[1] == 'm');
            assert(whole[i] == '.');
            assert(whole[i + 1] == 'm');
            if i >= 7 {
                assert(whole[i] == hash[i - 7]);
            }
        }
    }
    lemma_replaced_after(whole, ".mjs"@, ".yml"@, n);
    assert(whole.take(n) == stem);
    assert(whole.skip(n) == ".mjs"@);
    assert(".mjs"@.is_prefix_of(".mjs"@));
    assert(".mjs"@.skip(4) == Seq::<char>::empty());
    assert(replaced(".mjs"@, ".mjs"@, ".yml"@) == ".yml"@ + replaced(Seq::<char>::empty(), ".mjs"@, ".yml"@));
    assert(replaced(Seq::<char>::empty(), ".mjs"@, ".yml"@) == Seq::<char>::empty());
    assert(".yml"@ + Seq::<char>::empty() == ".yml"@);
}

/// What a build has to do.
#[derive(Debug, Clone, PartialEq, Eq)]
pub enum BuildStep {
    /// The artifact at this path is there already: nothing is written.
    Reuse(String),
    /// Bundle `entry` and write the result to `artifact`.
    Bundle { entry: String, artifact: String },
}

/// A `BuildStep` as plain values.
pub enum BuildStepView {
    Reuse(Seq<char>),
    Bundle { entry: Seq<char>, artifact: Seq<char> },
}

impl View for BuildStep {
    type V = BuildStepView;

    open spec fn view(&self) -> BuildStepView {
        match self {
            BuildStep::Reuse(path) => BuildStepView::Reuse(path@),
            BuildStep::Bundle { entry, artifact } => BuildStepView::Bundle {
                entry: entry@,
                artifact: artifact@,
            },
        }
    }
}

impl BuildStepView {
    /// The path at which the artifact is found once the step is done.
    pub open spec fn artifact(self) -> Seq<char> {
        match self {
            BuildStepView::Reuse(path) => path,
            BuildStepView::Bundle { artifact, .. } => artifact,
        }
    }
}

/// The step that builds a project whose sources hold `files`, where the
/// artifacts at the paths `built` are there already.
pub open spec fn build_step(files: Seq<Seq<u8>>, built: Seq<Seq<char>>) -> BuildStepView {
    let artifact = artifact_path_spec(hash_of(files, HASH_LEN as int));
    if built.contains(artifact) {
        BuildStepView::Reuse(artifact)
    } else {
        BuildStepView::Bundle { entry: ENTRY_POINT@, artifact }
    }
}

/// Decides how to build a project. `files` holds the contents of its
/// sources, in the order of their sorted paths; `built` holds the paths of
/// the artifacts that are there already.
pub fn build_project(files: &Vec<Vec<u8>>, built: &Vec<String>) -> (step: BuildStep)
    ensures
        step@ == build_step(files.deep_view(), built.deep_view()),
{
    let hash = calc_project_hash(files);
    let artifact = artifact_path(hash.as_str());
    let wanted = chars_of(artifact.as_str());
    let ghost all = built.deep_view();
    let mut i: usize = 0;
    while i < built.len()
        invariant
            i <= built.len(),
            all == built.deep_view(),
            wanted@ == artifact@,
            artifact@ == artifact_path_spec(hash_of(files.deep_view(), HASH_LEN as int)),
            forall|j: int| 0 <= j < i ==> all[j] != artifact@,
        decreases built.len() - i,
    {
        assert(all[i as int] == built@[i as int]@);
        let present = chars_of(built[i].as_str());
        if same_chars(wanted.as_slice(), present.as_slice()) {
            assert(all[i as int] == artifact@);
            return BuildStep::Reuse(artifact);
        }
        i += 1;
    }
    BuildStep::Bundle { entry: ENTRY_POINT.to_owned(), artifact }
}

/// Build determinism: the artifact's path depends on the sources alone, and
/// once a build has put the artifact there, building the same sources again
/// reuses it and writes nothing.
pub proof fn lemma_build_is_repeatable(files: Seq<Seq<u8>>, built: Seq<Seq<char>>, later: Seq<Seq<char>>)
    requires
        later.contains(build_step(files, built).artifact()),
    ensures
        build_step(files, later) == BuildStepView::Reuse(build_step(files, built).artifact()),
{
}

} // verus!
