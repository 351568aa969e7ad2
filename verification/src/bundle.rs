//! Bundling: from the modules that an entry point reaches to one artifact.
//! Modules are emitted once each, a module after the modules it imports.
use crate::text::{chars_of, push_all, same_chars, string_of};
use vstd::prelude::*;

verus! {

/// A module that has been loaded.
#[derive(Debug, Clone, PartialEq, Eq)]
pub struct Module {
    /// The absolute identifier of the module.
    pub id: String,
    /// The identifiers of the modules it imports, in the order of its imports.
    pub imports: Vec<String>,
    /// What it exports: the name seen from outside and the name it has inside.
    pub exports: Vec<(String, String)>,
    /// The statements it adds to the artifact.
    pub source: String,
}

/// A `Module` as plain values.
pub struct ModuleView {
    pub id: Seq<char>,
    pub imports: Seq<Seq<char>>,
    pub exports: Seq<(Seq<char>, Seq<char>)>,
    pub source: Seq<char>,
}

impl View for Module {
    type V = ModuleView;

    open spec fn view(&self) -> ModuleView {
        ModuleView {
            id: self.id@,
            imports: self.imports.deep_view(),
            exports: self.exports.deep_view(),
            source: self.source@,
        }
    }
}

impl DeepView for Module {
    type V = ModuleView;

    open spec fn deep_view(&self) -> ModuleView {
        self@
    }
}

/// The first module at or after `from` whose identifier is `id`.
pub open spec fn module_from(graph: Seq<ModuleView>, id: Seq<char>, from: int) -> Option<int>
    decreases graph.len() - from,
{
    if from < 0 || from >= graph.len() {
        None
    } else if graph[from].id == id {
        Some(from)
    } else {
        module_from(graph, id, from + 1)
    }
}

/// The module whose identifier is `id`: the first one, should several share it.
pub open spec fn module_at(graph: Seq<ModuleView>, id: Seq<char>) -> Option<int> {
    module_from(graph, id, 0)
}

/// The state of a walk: the modules entered so far, and the modules left so
/// far in the order they were left.
pub struct Walk {
    pub seen: Seq<int>,
    pub order: Seq<int>,
}

/// The walk after entering module `at`: nothing happens where the module has
/// been entered before; else its imports are walked and then it is left.
pub open spec fn visit(graph: Seq<ModuleView>, at: int, walk: Walk) -> Walk
    decreases graph.len() - walk.seen.len(), 0int, 0int,
{
    if at < 0 || at >= graph.len() || walk.seen.contains(at) || walk.seen.len() >= graph.len() {
        walk
    } else {
        let inner = visit_imports(graph, at, 0, Walk { seen: walk.seen.push(at), order: walk.order });
        Walk { seen: inner.seen, order: inner.order.push(at) }
    }
}

/// The walk after entering, in their order, the imports of module `at` from
/// the `k`-th on. An import that names no module is passed over.
pub open spec fn visit_imports(graph: Seq<ModuleView>, at: int, k: int, walk: Walk) -> Walk
    decreases graph.len() - walk.seen.len(), 1int, graph[at].imports.len() - k,
{
    if at < 0 || at >= graph.len() || k < 0 || k >= graph[at].imports.len() || walk.seen.len()
        > graph.len() {
        walk
    } else {
        match module_at(graph, graph[at].imports[k]) {
            None => visit_imports(graph, at, k + 1, walk),
            Some(next) => {
                let after = visit(graph, next, walk);
                if walk.seen.len() <= after.seen.len() <= graph.len() {
                    visit_imports(graph, at, k + 1, after)
                } else {
                    walk
                }
            },
        }
    }
}


/// A walk in good order: no module entered twice, none left twice, and only
/// modules of the graph that were entered are left.
pub open spec fn walk_ok(graph: Seq<ModuleView>, walk: Walk) -> bool {
    &&& walk.seen.no_duplicates()
    &&& walk.order.no_duplicates()
    &&& forall|i: int| 0 <= i < walk.seen.len() ==> 0 <= #[trigger] walk.seen[i] < graph.len()
    &&& forall|i: int| 0 <= i < walk.order.len() ==> walk.seen.contains(#[trigger] walk.order[i])
}

/// How a walk `after` continues a walk `before`: it keeps what was entered
/// and left, the modules it enters are the modules it leaves, and every
/// module that an import of a newly left module names has been entered.
pub open spec fn continues(graph: Seq<ModuleView>, before: Walk, after: Walk) -> bool {
    &&& before.seen.is_prefix_of(after.seen)
    &&& before.order.is_prefix_of(after.order)
    &&& forall|x: int|
        (after.seen.contains(x) && !before.seen.contains(x)) <==> (#[trigger] after.order.contains(x)
            && !before.order.contains(x))
    &&& forall|x: int, j: int|
        #![trigger after.order.contains(x), graph[x].imports[j]]
        after.order.contains(x) && !before.order.contains(x) && 0 <= j < graph[x].imports.len() ==> (
        module_at(graph, graph[x].imports[j]) matches Some(m) ==> after.seen.contains(m))
}

/// Distinct numbers below `n` are at most `n`.
proof fn lemma_bounded_len(s: Seq<int>, n: int)
    requires
        s.no_duplicates(),
        0 <= n,
        forall|i: int| 0 <= i < s.len() ==> 0 <= #[trigger] s[i] < n,
    ensures
        s.len() <= n,
{
    s.unique_seq_to_set();
    vstd::set_lib::lemma_int_range(0, n);
    assert(s.to_set().subset_of(vstd::set_lib::set_int_range(0, n))) by {
        assert forall|x: int| s.to_set().contains(x) implies vstd::set_lib::set_int_range(
            0,
            n,
        ).contains(x) by {
            let i = choose|i: int| 0 <= i < s.len() && s[i] == x;
            assert(0 <= s[i] < n);
        }
    }
    vstd::set_lib::lemma_len_subset(s.to_set(), vstd::set_lib::set_int_range(0, n));
}

/// `module_from` finds a module of the graph with the identifier asked for.
pub proof fn lemma_module_from(graph: Seq<ModuleView>, id: Seq<char>, from: int)
    requires
        0 <= from,
    ensures
        match module_from(graph, id, from) {
            Some(i) => from <= i < graph.len() && graph[i].id == id && forall|j: int|
                from <= j < i ==> (#[trigger] graph[j]).id != id,
            None => forall|j: int| from <= j < graph.len() ==> (#[trigger] graph[j]).id != id,
        },
    decreases graph.len() - from,
{
    if from < graph.len() && graph[from].id != id {
        lemma_module_from(graph, id, from + 1);
    }
}

/// A prefix of a sequence holds only what the sequence holds.
proof fn lemma_prefix_contains(a: Seq<int>, b: Seq<int>)
    requires
        a.is_prefix_of(b),
    ensures
        forall|x: int| a.contains(x) ==> b.contains(x),
        a.len() <= b.len(),
{
    assert forall|x: int| a.contains(x) implies b.contains(x) by {
        let i = choose|i: int| 0 <= i < a.len() && a[i] == x;
        assert(b.subrange(0, a.len() as int)[i] == b[i]);
        assert(b[i] == x);
    }
}

/// Entering a module keeps a walk in good order and continues it; the
/// module has been entered afterwards.
pub proof fn lemma_visit(graph: Seq<ModuleView>, at: int, walk: Walk)
    requires
        walk_ok(graph, walk),
    ensures
        walk_ok(graph, visit(graph, at, walk)),
        continues(graph, walk, visit(graph, at, walk)),
        0 <= at < graph.len() ==> visit(graph, at, walk).seen.contains(at),
        0 <= at < graph.len() && !walk.seen.contains(at) ==> visit(graph, at, walk).order.len() > 0
            && visit(graph, at, walk).order.last() == at,
        visit(graph, at, walk).seen.len() <= graph.len(),
    decreases graph.len() - walk.seen.len(), 0int, 0int,
{
    lemma_bounded_len(walk.seen, graph.len() as int);
    if at < 0 || at >= graph.len() || walk.seen.contains(at) {
    } else {
        let entered = Walk { seen: walk.seen.push(at), order: walk.order };
        assert(walk_ok(graph, entered)) by {
            assert forall|i: int, j: int|
                0 <= i < entered.seen.len() && 0 <= j < entered.seen.len() && i != j implies entered.seen[i]
                != entered.seen[j] by {
                if i < walk.seen.len() && j < walk.seen.len() {
                } else if i < walk.seen.len() {
                    assert(walk.seen.contains(walk.seen[i]));
                } else {
                    assert(walk.seen.contains(walk.seen[j]));
                }
            }
            assert forall|i: int| 0 <= i < entered.order.len() implies entered.seen.contains(
                #[trigger] entered.order[i],
            ) by {
                let w = choose|w: int| 0 <= w < walk.seen.len() && walk.seen[w] == walk.order[i];
                assert(entered.seen[w] == walk.order[i]);
            }
        }
        lemma_bounded_len(entered.seen, graph.len() as int);
        lemma_visit_imports(graph, at, 0, entered);
        let inner = visit_imports(graph, at, 0, entered);
        let left = Walk { seen: inner.seen, order: inner.order.push(at) };
        assert(visit(graph, at, walk) == left);
        lemma_prefix_contains(entered.seen, inner.seen);
        lemma_prefix_contains(entered.order, inner.order);
        assert(entered.seen.contains(at)) by {
            assert(entered.seen[walk.seen.len() as int] == at);
        }
        assert(!walk.order.contains(at)) by {
            if walk.order.contains(at) {
                let i = choose|i: int| 0 <= i < walk.order.len() && walk.order[i] == at;
                assert(walk.seen.contains(walk.order[i]));
            }
        }
        assert(!inner.order.contains(at));
        assert(left.order.no_duplicates()) by {
            assert forall|i: int, j: int|
                0 <= i < left.order.len() && 0 <= j < left.order.len() && i != j implies left.order[i]
                != left.order[j] by {
                if i < inner.order.len() && j < inner.order.len() {
                } else if i < inner.order.len() {
                    assert(inner.order.contains(inner.order[i]));
                } else {
                    assert(inner.order.contains(inner.order[j]));
                }
            }
        }
        assert forall|i: int| 0 <= i < left.order.len() implies left.seen.contains(
            #[trigger] left.order[i],
        ) by {
            if i < inner.order.len() {
                assert(inner.seen.contains(inner.order[i]));
            }
        }
        assert(walk.seen.is_prefix_of(left.seen)) by {
            assert(walk.seen =~= entered.seen.subrange(0, walk.seen.len() as int));
            assert(entered.seen =~= inner.seen.subrange(0, entered.seen.len() as int));
            assert(walk.seen =~= inner.seen.subrange(0, walk.seen.len() as int));
        }
        assert(walk.order.is_prefix_of(left.order)) by {
            assert(walk.order =~= inner.order.subrange(0, walk.order.len() as int));
            assert(walk.order =~= left.order.subrange(0, walk.order.len() as int));
        }
        assert forall|x: int|
            (left.seen.contains(x) && !walk.seen.contains(x)) <==> (#[trigger] left.order.contains(x)
                && !walk.order.contains(x)) by {
            lemma_push_contains(walk.seen, at, x);
            lemma_push_contains(inner.order, at, x);
            if x != at {
                assert(inner.order.contains(x) <==> left.order.contains(x));
                assert(entered.seen.contains(x) <==> walk.seen.contains(x));
            } else {
                assert(left.order[inner.order.len() as int] == at);
            }
        }
        assert forall|x: int, j: int|
            #![trigger left.order.contains(x), graph[x].imports[j]]
            left.order.contains(x) && !walk.order.contains(x) && 0 <= j < graph[x].imports.len() implies (
        module_at(graph, graph[x].imports[j]) matches Some(m) ==> left.seen.contains(m)) by {
            lemma_push_contains(inner.order, at, x);
            if x != at {
                assert(inner.order.contains(x));
            }
        }
        assert(left.order.last() == at);
    }
}

/// What `s.push(a)` holds.
proof fn lemma_push_contains(s: Seq<int>, a: int, x: int)
    ensures
        s.push(a).contains(x) <==> (s.contains(x) || x == a),
{
    if s.contains(x) {
        let i = choose|i: int| 0 <= i < s.len() && s[i] == x;
        assert(s.push(a)[i] == x);
    }
    if x == a {
        assert(s.push(a)[s.len() as int] == a);
    }
    if s.push(a).contains(x) {
        let i = choose|i: int| 0 <= i < s.push(a).len() && s.push(a)[i] == x;
        if i < s.len() {
            assert(s[i] == x);
        }
    }
}

/// Entering the imports of a module keeps a walk in good order and
/// continues it; every module that one of those imports names has been
/// entered afterwards.
pub proof fn lemma_visit_imports(graph: Seq<ModuleView>, at: int, k: int, walk: Walk)
    requires
        walk_ok(graph, walk),
        0 <= at < graph.len(),
        0 <= k <= graph[at].imports.len(),
    ensures
        walk_ok(graph, visit_imports(graph, at, k, walk)),
        continues(graph, walk, visit_imports(graph, at, k, walk)),
        forall|j: int|
            k <= j < graph[at].imports.len() ==> (module_at(graph, #[trigger] graph[at].imports[j]) matches Some(
                m,
            ) ==> visit_imports(graph, at, k, walk).seen.contains(m)),
        visit_imports(graph, at, k, walk).seen.len() <= graph.len(),
    decreases graph.len() - walk.seen.len(), 1int, graph[at].imports.len() - k,
{
    lemma_bounded_len(walk.seen, graph.len() as int);
    if k < graph[at].imports.len() {
        match module_at(graph, graph[at].imports[k]) {
            None => {
                lemma_visit_imports(graph, at, k + 1, walk);
            },
            Some(next) => {
                lemma_module_from(graph, graph[at].imports[k], 0);
                lemma_visit(graph, next, walk);
                let after = visit(graph, next, walk);
                lemma_prefix_contains(walk.seen, after.seen);
                lemma_prefix_contains(walk.order, after.order);
                lemma_visit_imports(graph, at, k + 1, after);
                let last = visit_imports(graph, at, k + 1, after);
                assert(visit_imports(graph, at, k, walk) == last);
                lemma_prefix_contains(after.seen, last.seen);
                lemma_prefix_contains(after.order, last.order);
                assert(walk.seen.is_prefix_of(last.seen)) by {
                    assert(walk.seen =~= after.seen.subrange(0, walk.seen.len() as int));
                    assert(after.seen =~= last.seen.subrange(0, after.seen.len() as int));
                    assert(walk.seen =~= last.seen.subrange(0, walk.seen.len() as int));
                }
                assert(walk.order.is_prefix_of(last.order)) by {
                    assert(walk.order =~= after.order.subrange(0, walk.order.len() as int));
                    assert(after.order =~= last.order.subrange(0, after.order.len() as int));
                    assert(walk.order =~= last.order.subrange(0, walk.order.len() as int));
                }
                assert forall|x: int|
                    (last.seen.contains(x) && !walk.seen.contains(x)) <==> (#[trigger] last.order.contains(
                        x,
                    ) && !walk.order.contains(x)) by {
                    assert(after.order.contains(x) || !after.order.contains(x));
                }
                assert forall|x: int, j: int|
                    #![trigger last.order.contains(x), graph[x].imports[j]]
                    last.order.contains(x) && !walk.order.contains(x) && 0 <= j
                        < graph[x].imports.len() implies (module_at(graph, graph[x].imports[j]) matches Some(
                    m,
                ) ==> last.seen.contains(m)) by {
                    if after.order.contains(x) {
                        if let Some(m) = module_at(graph, graph[x].imports[j]) {
                            assert(after.seen.contains(m));
                        }
                    }
                }
            },
        }
    }
}


/// Whether module `x` imports module `m`.
pub open spec fn imports_module(graph: Seq<ModuleView>, x: int, m: int) -> bool {
    0 <= x < graph.len() && exists|j: int|
        0 <= j < graph[x].imports.len() && module_at(graph, #[trigger] graph[x].imports[j]) == Some(
            m,
        )
}

/// A chain of modules in which each imports the next.
pub open spec fn is_chain(graph: Seq<ModuleView>, chain: Seq<int>) -> bool {
    &&& chain.len() >= 1
    &&& forall|i: int| 0 <= i < chain.len() ==> 0 <= #[trigger] chain[i] < graph.len()
    &&& forall|i: int| 0 <= i < chain.len() - 1 ==> imports_module(graph, #[trigger] chain[i], chain[i + 1])
}

/// Whether imports lead from module `a` to module `b`.
pub open spec fn reaches(graph: Seq<ModuleView>, a: int, b: int) -> bool {
    exists|chain: Seq<int>| #[trigger] is_chain(graph, chain) && chain.first() == a && chain.last() == b
}

/// No module reaches itself through its imports.
pub open spec fn acyclic(graph: Seq<ModuleView>) -> bool {
    forall|chain: Seq<int>| #[trigger] is_chain(graph, chain) && chain.len() >= 2 ==> chain.first() != chain.last()
}

/// Every module that is left stands after the modules it imports.
pub open spec fn imports_first(graph: Seq<ModuleView>, order: Seq<int>) -> bool {
    forall|i: int, m: int|
        0 <= i < order.len() && #[trigger] imports_module(graph, order[i], m) ==> exists|k: int|
            0 <= k < i && order[k] == m
}

/// Every module that has been entered and not left reaches `at`.
pub open spec fn open_reach(graph: Seq<ModuleView>, walk: Walk, at: int) -> bool {
    forall|x: int|
        walk.seen.contains(x) && !walk.order.contains(x) ==> #[trigger] reaches(graph, x, at)
}

/// A chain goes on along an import.
proof fn lemma_reach_on(graph: Seq<ModuleView>, a: int, b: int, c: int)
    requires
        reaches(graph, a, b),
        imports_module(graph, b, c),
        0 <= c < graph.len(),
    ensures
        reaches(graph, a, c),
{
    let chain = choose|chain: Seq<int>| #[trigger] is_chain(graph, chain) && chain.first() == a && chain.last() == b;
    let longer = chain.push(c);
    assert(is_chain(graph, longer)) by {
        assert forall|i: int| 0 <= i < longer.len() - 1 implies imports_module(
            graph,
            #[trigger] longer[i],
            longer[i + 1],
        ) by {
            if i < chain.len() - 1 {
                assert(imports_module(graph, chain[i], chain[i + 1]));
            }
        }
    }
    assert(longer.first() == a && longer.last() == c);
}

/// Every module reaches itself.
proof fn lemma_reach_self(graph: Seq<ModuleView>, a: int)
    requires
        0 <= a < graph.len(),
    ensures
        reaches(graph, a, a),
{
    let chain = seq![a];
    assert(is_chain(graph, chain));
    assert(chain.first() == a && chain.last() == a);
}

/// Where no module reaches itself, a module that reaches `b` is not
/// imported by `b`.
proof fn lemma_no_way_back(graph: Seq<ModuleView>, a: int, b: int)
    requires
        acyclic(graph),
        reaches(graph, a, b),
        0 <= a < graph.len(),
    ensures
        !imports_module(graph, b, a),
{
    if imports_module(graph, b, a) {
        let chain = choose|chain: Seq<int>| #[trigger] is_chain(graph, chain) && chain.first() == a && chain.last() == b;
        let round = chain.push(a);
        assert(is_chain(graph, round)) by {
            assert forall|i: int| 0 <= i < round.len() - 1 implies imports_module(
                graph,
                #[trigger] round[i],
                round[i + 1],
            ) by {
                if i < chain.len() - 1 {
                    assert(imports_module(graph, chain[i], chain[i + 1]));
                }
            }
        }
        assert(round.first() == a && round.last() == a && round.len() >= 2);
    }
}

/// A walk that has just entered a module is in good order.
proof fn lemma_entered(graph: Seq<ModuleView>, at: int, walk: Walk)
    requires
        walk_ok(graph, walk),
        0 <= at < graph.len(),
        !walk.seen.contains(at),
    ensures
        walk_ok(graph, Walk { seen: walk.seen.push(at), order: walk.order }),
{
    let entered = Walk { seen: walk.seen.push(at), order: walk.order };
    assert forall|i: int, j: int|
        0 <= i < entered.seen.len() && 0 <= j < entered.seen.len() && i != j implies entered.seen[i]
        != entered.seen[j] by {
        if i < walk.seen.len() && j < walk.seen.len() {
        } else if i < walk.seen.len() {
            assert(walk.seen.contains(walk.seen[i]));
        } else {
            assert(walk.seen.contains(walk.seen[j]));
        }
    }
    assert forall|i: int| 0 <= i < entered.order.len() implies entered.seen.contains(
        #[trigger] entered.order[i],
    ) by {
        lemma_push_contains(walk.seen, at, entered.order[i]);
    }
}

/// Entering a module keeps every module after its imports, where no module
/// reaches itself.
proof fn lemma_visit_order(graph: Seq<ModuleView>, at: int, walk: Walk)
    requires
        walk_ok(graph, walk),
        acyclic(graph),
        imports_first(graph, walk.order),
        open_reach(graph, walk, at),
    ensures
        imports_first(graph, visit(graph, at, walk).order),
    decreases graph.len() - walk.seen.len(), 0int, 0int,
{
    if at < 0 || at >= graph.len() || walk.seen.contains(at) || walk.seen.len() >= graph.len() {
    } else {
        let entered = Walk { seen: walk.seen.push(at), order: walk.order };
        lemma_entered(graph, at, walk);
        assert(open_reach(graph, entered, at)) by {
            assert forall|x: int|
                entered.seen.contains(x) && !entered.order.contains(x) implies #[trigger] reaches(
                graph,
                x,
                at,
            ) by {
                lemma_push_contains(walk.seen, at, x);
                if x == at {
                    lemma_reach_self(graph, at);
                }
            }
        }
        lemma_visit_imports(graph, at, 0, entered);
        lemma_visit_imports_order(graph, at, 0, entered);
        let inner = visit_imports(graph, at, 0, entered);
        let left = inner.order.push(at);
        lemma_prefix_contains(entered.order, inner.order);
        assert forall|i: int, m: int|
            0 <= i < left.len() && #[trigger] imports_module(graph, left[i], m) implies exists|k: int|
            0 <= k < i && left[k] == m by {
            if i < inner.order.len() {
                assert(imports_module(graph, inner.order[i], m));
                let k = choose|k: int| 0 <= k < i && inner.order[k] == m;
                assert(left[k] == m);
            } else {
                let j = choose|j: int|
                    0 <= j < graph[at].imports.len() && module_at(graph, #[trigger] graph[at].imports[j])
                        == Some(m);
                assert(inner.seen.contains(m));
                lemma_module_from(graph, graph[at].imports[j], 0);
                if !inner.order.contains(m) {
                    assert(entered.seen.contains(m));
                    assert(!entered.order.contains(m));
                    assert(reaches(graph, m, at));
                    lemma_no_way_back(graph, m, at);
                }
                let k = choose|k: int| 0 <= k < inner.order.len() && inner.order[k] == m;
                assert(left[k] == m);
            }
        }
    }
}

/// Entering the imports of a module keeps every module after its imports,
/// where no module reaches itself.
proof fn lemma_visit_imports_order(graph: Seq<ModuleView>, at: int, k: int, walk: Walk)
    requires
        walk_ok(graph, walk),
        acyclic(graph),
        imports_first(graph, walk.order),
        open_reach(graph, walk, at),
        0 <= at < graph.len(),
        0 <= k <= graph[at].imports.len(),
    ensures
        imports_first(graph, visit_imports(graph, at, k, walk).order),
    decreases graph.len() - walk.seen.len(), 1int, graph[at].imports.len() - k,
{
    lemma_bounded_len(walk.seen, graph.len() as int);
    if k < graph[at].imports.len() {
        match module_at(graph, graph[at].imports[k]) {
            None => {
                lemma_visit_imports_order(graph, at, k + 1, walk);
            },
            Some(next) => {
                lemma_module_from(graph, graph[at].imports[k], 0);
                assert(imports_module(graph, at, next));
                assert(open_reach(graph, walk, next)) by {
                    assert forall|x: int|
                        walk.seen.contains(x) && !walk.order.contains(x) implies #[trigger] reaches(
                        graph,
                        x,
                        next,
                    ) by {
                        assert(reaches(graph, x, at));
                        lemma_reach_on(graph, x, at, next);
                    }
                }
                lemma_visit(graph, next, walk);
                lemma_visit_order(graph, next, walk);
                let after = visit(graph, next, walk);
                lemma_prefix_contains(walk.seen, after.seen);
                lemma_prefix_contains(walk.order, after.order);
                assert(open_reach(graph, after, at)) by {
                    assert forall|x: int|
                        after.seen.contains(x) && !after.order.contains(x) implies #[trigger] reaches(
                        graph,
                        x,
                        at,
                    ) by {
                        assert(walk.seen.contains(x));
                        assert(!walk.order.contains(x));
                    }
                }
                lemma_visit_imports_order(graph, at, k + 1, after);
            },
        }
    }
}

/// Every module that a walk from `at` leaves anew is reached from `at`.
pub open spec fn left_are_reached(graph: Seq<ModuleView>, at: int, before: Walk, after: Walk) -> bool {
    forall|x: int|
        after.order.contains(x) && !before.order.contains(x) ==> #[trigger] reaches(graph, at, x)
}

/// A chain with an import before it is a chain.
proof fn lemma_reach_from(graph: Seq<ModuleView>, a: int, b: int, c: int)
    requires
        0 <= a < graph.len(),
        imports_module(graph, a, b),
        reaches(graph, b, c),
    ensures
        reaches(graph, a, c),
{
    let chain = choose|chain: Seq<int>| #[trigger] is_chain(graph, chain) && chain.first() == b && chain.last() == c;
    let longer = seq![a] + chain;
    assert(is_chain(graph, longer)) by {
        assert forall|i: int| 0 <= i < longer.len() implies 0 <= #[trigger] longer[i] < graph.len() by {
            if i > 0 {
                assert(longer[i] == chain[i - 1]);
            }
        }
        assert forall|i: int| 0 <= i < longer.len() - 1 implies imports_module(
            graph,
            #[trigger] longer[i],
            longer[i + 1],
        ) by {
            if i > 0 {
                assert(longer[i] == chain[i - 1]);
                assert(longer[i + 1] == chain[i]);
                assert(imports_module(graph, chain[i - 1], chain[i]));
            } else {
                assert(longer[1] == chain[0]);
            }
        }
    }
    assert(longer.first() == a && longer.last() == c);
}

/// Entering a module leaves only modules that it reaches.
proof fn lemma_visit_reach(graph: Seq<ModuleView>, at: int, walk: Walk)
    requires
        walk_ok(graph, walk),
    ensures
        left_are_reached(graph, at, walk, visit(graph, at, walk)),
    decreases graph.len() - walk.seen.len(), 0int, 0int,
{
    if at < 0 || at >= graph.len() || walk.seen.contains(at) || walk.seen.len() >= graph.len() {
    } else {
        let entered = Walk { seen: walk.seen.push(at), order: walk.order };
        lemma_entered(graph, at, walk);
        lemma_visit_imports_reach(graph, at, 0, entered);
        let inner = visit_imports(graph, at, 0, entered);
        let left = inner.order.push(at);
        assert forall|x: int| left.contains(x) && !walk.order.contains(x) implies #[trigger] reaches(
            graph,
            at,
            x,
        ) by {
            lemma_push_contains(inner.order, at, x);
            if x == at {
                lemma_reach_self(graph, at);
            }
        }
    }
}

/// Entering the imports of a module leaves only modules that it reaches.
proof fn lemma_visit_imports_reach(graph: Seq<ModuleView>, at: int, k: int, walk: Walk)
    requires
        walk_ok(graph, walk),
        0 <= at < graph.len(),
        0 <= k <= graph[at].imports.len(),
    ensures
        left_are_reached(graph, at, walk, visit_imports(graph, at, k, walk)),
    decreases graph.len() - walk.seen.len(), 1int, graph[at].imports.len() - k,
{
    lemma_bounded_len(walk.seen, graph.len() as int);
    if k < graph[at].imports.len() {
        match module_at(graph, graph[at].imports[k]) {
            None => {
                lemma_visit_imports_reach(graph, at, k + 1, walk);
            },
            Some(next) => {
                lemma_module_from(graph, graph[at].imports[k], 0);
                assert(imports_module(graph, at, next));
                lemma_visit(graph, next, walk);
                lemma_visit_reach(graph, next, walk);
                let after = visit(graph, next, walk);
                lemma_prefix_contains(walk.seen, after.seen);
                lemma_visit_imports_reach(graph, at, k + 1, after);
                let last = visit_imports(graph, at, k + 1, after);
                assert forall|x: int|
                    last.order.contains(x) && !walk.order.contains(x) implies #[trigger] reaches(
                    graph,
                    at,
                    x,
                ) by {
                    if after.order.contains(x) {
                        assert(reaches(graph, next, x));
                        lemma_reach_from(graph, at, next, x);
                    }
                }
            },
        }
    }
}

/// The modules that are emitted are the modules that the entry reaches.
pub proof fn lemma_emitted_are_the_reached(graph: Seq<ModuleView>, entry: int, x: int)
    requires
        0 <= entry < graph.len(),
    ensures
        emission_order(graph, entry).contains(x) <==> reaches(graph, entry, x),
{
    let empty = Walk { seen: Seq::empty(), order: Seq::empty() };
    lemma_visit_reach(graph, entry, empty);
    if reaches(graph, entry, x) {
        let chain = choose|chain: Seq<int>| #[trigger] is_chain(graph, chain) && chain.first() == entry && chain.last() == x;
        lemma_chain_is_emitted(graph, entry, chain, chain.len() - 1);
    }
}

/// Every module of a chain that starts at the entry is emitted.
proof fn lemma_chain_is_emitted(graph: Seq<ModuleView>, entry: int, chain: Seq<int>, upto: int)
    requires
        0 <= entry < graph.len(),
        is_chain(graph, chain),
        chain.first() == entry,
        0 <= upto < chain.len(),
    ensures
        emission_order(graph, entry).contains(chain[upto]),
    decreases upto,
{
    lemma_emission_order(graph, entry);
    let order = emission_order(graph, entry);
    if upto == 0 {
        assert(order[order.len() - 1] == entry);
    } else {
        lemma_chain_is_emitted(graph, entry, chain, upto - 1);
        let x = chain[upto - 1];
        assert(imports_module(graph, x, chain[upto]));
        let j = choose|j: int|
            0 <= j < graph[x].imports.len() && module_at(graph, #[trigger] graph[x].imports[j]) == Some(
                chain[upto],
            );
        assert(order.contains(x));
    }
}

/// Dependencies precede dependents: where no module reaches itself through
/// its imports, every emitted module stands after all the modules it imports.
pub proof fn lemma_imports_come_first(graph: Seq<ModuleView>, entry: int)
    requires
        acyclic(graph),
    ensures
        imports_first(graph, emission_order(graph, entry)),
{
    let empty = Walk { seen: Seq::empty(), order: Seq::empty() };
    lemma_visit_order(graph, entry, empty);
}

/// Positions as the numbers they are.
pub open spec fn ints(s: Seq<usize>) -> Seq<int> {
    Seq::new(s.len(), |i: int| s[i] as int)
}

/// The walk whose entered and left modules stand at the given positions.
pub open spec fn walk_of(seen: Seq<usize>, order: Seq<usize>) -> Walk {
    Walk { seen: ints(seen), order: ints(order) }
}

/// Finds the module whose identifier is `id`.
pub fn find_module(modules: &Vec<Module>, id: &str) -> (found: Option<usize>)
    ensures
        match found {
            Some(i) => i < modules.len() && module_at(modules.deep_view(), id@) == Some(i as int),
            None => module_at(modules.deep_view(), id@) is None,
        },
{
    let ghost graph = modules.deep_view();
    let wanted = chars_of(id);
    let mut i: usize = 0;
    while i < modules.len()
        invariant
            i <= modules.len(),
            graph == modules.deep_view(),
            wanted@ == id@,
            module_from(graph, id@, i as int) == module_at(graph, id@),
        decreases modules.len() - i,
    {
        assert(graph[i as int] == modules@[i as int]@);
        let name = chars_of(modules[i].id.as_str());
        if same_chars(wanted.as_slice(), name.as_slice()) {
            return Some(i);
        }
        i += 1;
    }
    None
}

/// Whether `x` is among `s`.
fn holds(s: &Vec<usize>, x: usize) -> (r: bool)
    ensures
        r == ints(s@).contains(x as int),
{
    let mut i: usize = 0;
    while i < s.len()
        invariant
            i <= s.len(),
            forall|j: int| 0 <= j < i ==> s@[j] != x,
        decreases s.len() - i,
    {
        if s[i] == x {
            assert(ints(s@)[i as int] == x as int);
            return true;
        }
        i += 1;
    }
    assert forall|j: int| 0 <= j < ints(s@).len() implies ints(s@)[j] != x as int by {
        assert(s@[j] != x);
    }
    false
}

/// Enters module `at` and walks what it reaches, as `visit` says.
fn walk_from(modules: &Vec<Module>, at: usize, seen: &mut Vec<usize>, order: &mut Vec<usize>)
    requires
        at < modules.len(),
        walk_ok(modules.deep_view(), walk_of(old(seen)@, old(order)@)),
    ensures
        walk_of(final(seen)@, final(order)@) == visit(
            modules.deep_view(),
            at as int,
            walk_of(old(seen)@, old(order)@),
        ),
        walk_ok(modules.deep_view(), walk_of(final(seen)@, final(order)@)),
        old(seen).len() <= final(seen).len() <= modules.len(),
    decreases modules.len() - old(seen).len(),
{
    let ghost graph = modules.deep_view();
    let ghost start = Walk { seen: ints(seen@), order: ints(order@) };
    proof {
        lemma_bounded_len(start.seen, graph.len() as int);
        lemma_visit(graph, at as int, start);
        lemma_prefix_contains(start.seen, visit(graph, at as int, start).seen);
    }
    if holds(seen, at) {
        return;
    }
    seen.push(at);
    let ghost entered = Walk { seen: start.seen.push(at as int), order: start.order };
    proof {
        assert(ints(seen@) =~= start.seen.push(at as int));
        assert(visit(graph, at as int, start).seen.contains(at as int));
        if start.seen.len() >= graph.len() {
            assert(visit(graph, at as int, start) == start);
        }
        assert(start.seen.len() < graph.len());
        assert(walk_ok(graph, entered)) by {
            assert forall|i: int, j: int|
                0 <= i < entered.seen.len() && 0 <= j < entered.seen.len() && i != j implies entered.seen[i]
                != entered.seen[j] by {
                if i < start.seen.len() && j < start.seen.len() {
                } else if i < start.seen.len() {
                    assert(start.seen.contains(start.seen[i]));
                } else {
                    assert(start.seen.contains(start.seen[j]));
                }
            }
            assert forall|i: int| 0 <= i < entered.order.len() implies entered.seen.contains(
                #[trigger] entered.order[i],
            ) by {
                lemma_push_contains(start.seen, at as int, entered.order[i]);
            }
        }
        assert(graph[at as int] == modules@[at as int]@);
    }
    let imports = &modules[at].imports;
    let mut k: usize = 0;
    while k < imports.len()
        invariant
            k <= imports.len(),
            at < modules.len(),
            graph == modules.deep_view(),
            graph[at as int].imports == imports.deep_view(),
            walk_ok(graph, walk_of(seen@, order@)),
            visit_imports(graph, at as int, k as int, walk_of(seen@, order@)) == visit_imports(
                graph,
                at as int,
                0,
                entered,
            ),
            old(seen).len() < seen.len() <= modules.len(),
        decreases imports.len() - k,
    {
        let ghost now = Walk { seen: ints(seen@), order: ints(order@) };
        assert(imports.deep_view()[k as int] == imports@[k as int]@);
        match find_module(modules, imports[k].as_str()) {
            None => {},
            Some(next) => {
                walk_from(modules, next, seen, order);
            },
        }
        k += 1;
    }
    order.push(at);
    proof {
        let inner = visit_imports(graph, at as int, 0, entered);
        assert(ints(order@) =~= inner.order.push(at as int));
    }
}

/// The order in which the modules that `entry` reaches are emitted: each
/// once, a module after the modules it imports, the entry last.
pub open spec fn emission_order(graph: Seq<ModuleView>, entry: int) -> Seq<int> {
    visit(graph, entry, Walk { seen: Seq::empty(), order: Seq::empty() }).order
}

/// What the emission order promises: it names modules of the graph, each at
/// most once, the entry last, and with every module the modules that its
/// imports name.
pub proof fn lemma_emission_order(graph: Seq<ModuleView>, entry: int)
    requires
        0 <= entry < graph.len(),
    ensures
        emission_order(graph, entry).no_duplicates(),
        forall|i: int|
            0 <= i < emission_order(graph, entry).len() ==> 0 <= #[trigger] emission_order(graph, entry)[i]
                < graph.len(),
        emission_order(graph, entry).len() > 0,
        emission_order(graph, entry).last() == entry,
        forall|x: int, j: int|
            #![trigger emission_order(graph, entry).contains(x), graph[x].imports[j]]
            emission_order(graph, entry).contains(x) && 0 <= j < graph[x].imports.len() ==> (module_at(
                graph,
                graph[x].imports[j],
            ) matches Some(m) ==> emission_order(graph, entry).contains(m)),
{
    let empty = Walk { seen: Seq::empty(), order: Seq::empty() };
    lemma_visit(graph, entry, empty);
    let done = visit(graph, entry, empty);
    assert forall|i: int| 0 <= i < done.order.len() implies 0 <= #[trigger] done.order[i]
        < graph.len() by {
        assert(done.seen.contains(done.order[i]));
    }
    assert forall|x: int, j: int|
        #![trigger done.order.contains(x), graph[x].imports[j]]
        done.order.contains(x) && 0 <= j < graph[x].imports.len() implies (module_at(
        graph,
        graph[x].imports[j],
    ) matches Some(m) ==> done.order.contains(m)) by {
        if let Some(m) = module_at(graph, graph[x].imports[j]) {
            assert(done.seen.contains(m));
            assert(done.order.contains(m));
        }
    }
}

/// Computes the order in which the modules that `entry` reaches are emitted.
pub fn bundle_order(modules: &Vec<Module>, entry: usize) -> (order: Vec<usize>)
    ensures
        ints(order@) == emission_order(modules.deep_view(), entry as int),
        forall|i: int| 0 <= i < order.len() ==> (#[trigger] order@[i]) < modules.len(),
{
    let mut seen: Vec<usize> = Vec::new();
    let mut order: Vec<usize> = Vec::new();
    proof {
        assert(ints(seen@) =~= Seq::empty());
        assert(ints(order@) =~= Seq::empty());
    }
    if entry >= modules.len() {
        return order;
    }
    proof {
        lemma_emission_order(modules.deep_view(), entry as int);
    }
    walk_from(modules, entry, &mut seen, &mut order);
    proof {
        assert forall|i: int| 0 <= i < order.len() implies (#[trigger] order@[i]) < modules.len() by {
            assert(ints(order@)[i] == order@[i] as int);
        }
    }
    order
}


/// The imports of all the modules of the graph, module after module.
pub open spec fn all_imports(graph: Seq<ModuleView>) -> Seq<Seq<char>>
    decreases graph.len(),
{
    if graph.len() == 0 {
        Seq::empty()
    } else {
        all_imports(graph.drop_last()) + graph.last().imports
    }
}

/// The identifiers that a bundle of `entry` asks for: the entry, then every
/// import of every module.
pub open spec fn wanted(entry: Seq<char>, graph: Seq<ModuleView>) -> Seq<Seq<char>> {
    seq![entry] + all_imports(graph)
}

/// The first of `ids` at or after `from` that names no module.
pub open spec fn first_absent(graph: Seq<ModuleView>, ids: Seq<Seq<char>>, from: int) -> Option<int>
    decreases ids.len() - from,
{
    if from < 0 || from >= ids.len() {
        None
    } else if module_at(graph, ids[from]) is None {
        Some(from)
    } else {
        first_absent(graph, ids, from + 1)
    }
}

/// `first_absent` finds the least position whose identifier names no module.
pub proof fn lemma_first_absent(graph: Seq<ModuleView>, ids: Seq<Seq<char>>, from: int)
    requires
        0 <= from,
    ensures
        match first_absent(graph, ids, from) {
            Some(i) => from <= i < ids.len() && module_at(graph, ids[i]) is None && forall|j: int|
                from <= j < i ==> module_at(graph, #[trigger] ids[j]) is Some,
            None => forall|j: int| from <= j < ids.len() ==> module_at(graph, #[trigger] ids[j]) is Some,
        },
    decreases ids.len() - from,
{
    if from < ids.len() && module_at(graph, ids[from]) is Some {
        lemma_first_absent(graph, ids, from + 1);
    }
}

/// The identifiers that a bundle of `entry` asks for.
pub fn wanted_ids(entry: &str, modules: &Vec<Module>) -> (ids: Vec<String>)
    ensures
        ids.deep_view() == wanted(entry@, modules.deep_view()),
{
    let ghost graph = modules.deep_view();
    let mut ids: Vec<String> = Vec::new();
    ids.push(entry.to_owned());
    assert(ids.deep_view() =~= seq![entry@]);
    assert(all_imports(graph.take(0)) =~= Seq::empty());
    let mut i: usize = 0;
    while i < modules.len()
        invariant
            i <= modules.len(),
            graph == modules.deep_view(),
            ids.deep_view() == seq![entry@] + all_imports(graph.take(i as int)),
        decreases modules.len() - i,
    {
        let imports = &modules[i].imports;
        let ghost base = ids.deep_view();
        proof {
            assert(graph[i as int] == modules@[i as int]@);
            assert(graph.take(i + 1).drop_last() == graph.take(i as int));
            assert(graph.take(i + 1).last() == graph[i as int]);
        }
        let mut k: usize = 0;
        while k < imports.len()
            invariant
                k <= imports.len(),
                ids.deep_view() == base + imports.deep_view().take(k as int),
            decreases imports.len() - k,
        {
            let ghost held = ids.deep_view();
            ids.push(imports[k].clone());
            proof {
                assert(imports.deep_view()[k as int] == imports@[k as int]@);
                assert(ids.deep_view() =~= held.push(imports@[k as int]@));
                assert(imports.deep_view().take(k + 1) =~= imports.deep_view().take(k as int).push(
                    imports@[k as int]@,
                ));
            }
            k += 1;
        }
        proof {
            assert(imports.deep_view().take(k as int) == imports.deep_view());
            assert(ids.deep_view() =~= seq![entry@] + all_imports(graph.take(i + 1)));
        }
        i += 1;
    }
    assert(graph.take(i as int) == graph);
    ids
}

/// Whether `id` is among `ids`.
fn listed(ids: &Vec<String>, id: &str) -> (r: bool)
    ensures
        r == ids.deep_view().contains(id@),
{
    let wanted = chars_of(id);
    let mut i: usize = 0;
    while i < ids.len()
        invariant
            i <= ids.len(),
            wanted@ == id@,
            forall|j: int| 0 <= j < i ==> ids.deep_view()[j] != id@,
        decreases ids.len() - i,
    {
        assert(ids.deep_view()[i as int] == ids@[i as int]@);
        let name = chars_of(ids[i].as_str());
        if same_chars(wanted.as_slice(), name.as_slice()) {
            return true;
        }
        i += 1;
    }
    false
}

/// The modules still to be loaded before `entry` can be bundled: every
/// identifier that the bundle asks for and that names no module of
/// `modules`, each once.
pub fn missing_imports(entry: &str, modules: &Vec<Module>) -> (missing: Vec<String>)
    ensures
        missing.deep_view().no_duplicates(),
        forall|id: Seq<char>| #[trigger]
            missing.deep_view().contains(id) <==> (wanted(entry@, modules.deep_view()).contains(id)
                && module_at(modules.deep_view(), id) is None),
{
    let ghost graph = modules.deep_view();
    let ids = wanted_ids(entry, modules);
    let ghost all = ids.deep_view();
    let mut missing: Vec<String> = Vec::new();
    assert(missing.deep_view() =~= Seq::empty());
    let mut i: usize = 0;
    while i < ids.len()
        invariant
            i <= ids.len(),
            graph == modules.deep_view(),
            all == ids.deep_view(),
            missing.deep_view().no_duplicates(),
            forall|id: Seq<char>| #[trigger]
                missing.deep_view().contains(id) <==> (all.take(i as int).contains(id) && module_at(
                    graph,
                    id,
                ) is None),
        decreases ids.len() - i,
    {
        let ghost held = missing.deep_view();
        let ghost id = ids@[i as int]@;
        proof {
            assert(all[i as int] == id);
            assert(all.take(i + 1) =~= all.take(i as int).push(id));
        }
        if find_module(modules, ids[i].as_str()).is_none() && !listed(&missing, ids[i].as_str()) {
            missing.push(ids[i].clone());
            proof {
                assert(missing.deep_view() =~= held.push(id));
                assert forall|q: Seq<char>| #[trigger]
                    missing.deep_view().contains(q) <==> (all.take(i + 1).contains(q) && module_at(
                        graph,
                        q,
                    ) is None) by {
                    lemma_push_has(held, id, q);
                    lemma_push_has(all.take(i as int), id, q);
                }
                assert forall|a: int, b: int|
                    0 <= a < held.len() + 1 && 0 <= b < held.len() + 1 && a != b implies held.push(id)[a]
                    != held.push(id)[b] by {
                    if a < held.len() && b < held.len() {
                    } else if a < held.len() {
                        assert(held.contains(held[a]));
                    } else {
                        assert(held.contains(held[b]));
                    }
                }
            }
        } else {
            proof {
                assert forall|q: Seq<char>| #[trigger]
                    missing.deep_view().contains(q) <==> (all.take(i + 1).contains(q) && module_at(
                        graph,
                        q,
                    ) is None) by {
                    lemma_push_has(all.take(i as int), id, q);
                }
            }
        }
        i += 1;
    }
    assert(all.take(i as int) == all);
    missing
}

/// What `s.push(a)` holds.
proof fn lemma_push_has(s: Seq<Seq<char>>, a: Seq<char>, x: Seq<char>)
    ensures
        s.push(a).contains(x) <==> (s.contains(x) || x == a),
{
    if s.contains(x) {
        let i = choose|i: int| 0 <= i < s.len() && s[i] == x;
        assert(s.push(a)[i] == x);
    }
    if x == a {
        assert(s.push(a)[s.len() as int] == a);
    }
    if s.push(a).contains(x) {
        let i = choose|i: int| 0 <= i < s.push(a).len() && s.push(a)[i] == x;
        if i < s.len() {
            assert(s[i] == x);
        }
    }
}

/// The statements of the modules at `order`, one module after the other.
pub open spec fn sources_in(graph: Seq<ModuleView>, order: Seq<int>) -> Seq<char>
    decreases order.len(),
{
    if order.len() == 0 {
        Seq::empty()
    } else {
        sources_in(graph, order.drop_last()) + graph[order.last()].source
    }
}

/// The members of the object that an artifact returns: `outer:inner` for
/// each export, with commas between them.
pub open spec fn export_list(exports: Seq<(Seq<char>, Seq<char>)>) -> Seq<char>
    decreases exports.len(),
{
    if exports.len() == 0 {
        Seq::empty()
    } else {
        let member = exports.last().0 + seq![':'] + exports.last().1;
        if exports.len() == 1 {
            member
        } else {
            export_list(exports.drop_last()) + seq![','] + member
        }
    }
}

/// The artifact of the entry at `entry`: a function that is called on the
/// spot, holds the statements of every module the entry reaches, in
/// emission order, and returns the entry's exports.
pub open spec fn artifact_of(graph: Seq<ModuleView>, entry: int) -> Seq<char> {
    "(function(){"@ + sources_in(graph, emission_order(graph, entry)) + "return{"@ + export_list(
        graph[entry].exports,
    ) + "};})();"@
}

/// Why there is no bundle.
#[derive(Debug, Clone, PartialEq, Eq)]
pub enum BundleError {
    /// The module of this identifier is asked for and has not been loaded.
    Missing(String),
}

/// The bundle of `entry`, or the first identifier that the bundle asks for
/// and that names no module.
pub open spec fn bundle_spec(entry: Seq<char>, graph: Seq<ModuleView>) -> Result<Seq<char>, Seq<char>> {
    match first_absent(graph, wanted(entry, graph), 0) {
        Some(i) => Err(wanted(entry, graph)[i]),
        None => Ok(artifact_of(graph, module_at(graph, entry)->0)),
    }
}

/// The view of a bundle's outcome.
pub open spec fn bundle_view(r: Result<String, BundleError>) -> Result<Seq<char>, Seq<char>> {
    match r {
        Ok(artifact) => Ok(artifact@),
        Err(BundleError::Missing(id)) => Err(id@),
    }
}

/// Bundles the modules that `entry` reaches into one artifact. `modules`
/// holds the modules that have been loaded; the bundle fails on the first
/// module that is asked for and is not among them.
pub fn run_bundle(entry: &str, modules: &Vec<Module>) -> (r: Result<String, BundleError>)
    ensures
        bundle_view(r) == bundle_spec(entry@, modules.deep_view()),
{
    let ghost graph = modules.deep_view();
    let ids = wanted_ids(entry, modules);
    let ghost all = ids.deep_view();
    let mut i: usize = 0;
    while i < ids.len()
        invariant
            i <= ids.len(),
            graph == modules.deep_view(),
            all == ids.deep_view(),
            all == wanted(entry@, graph),
            first_absent(graph, all, i as int) == first_absent(graph, all, 0),
        decreases ids.len() - i,
    {
        assert(all[i as int] == ids@[i as int]@);
        if find_module(modules, ids[i].as_str()).is_none() {
            return Err(BundleError::Missing(ids[i].clone()));
        }
        i += 1;
    }
    proof {
        lemma_first_absent(graph, all, 0);
        assert(all[0] == entry@);
    }
    let Some(at) = find_module(modules, entry) else {
        return Err(BundleError::Missing(entry.to_owned()));
    };
    let order = bundle_order(modules, at);
    let mut out = chars_of("(function(){");
    let mut k: usize = 0;
    assert(ints(order@).take(0) =~= Seq::empty());
    while k < order.len()
        invariant
            k <= order.len(),
            graph == modules.deep_view(),
            forall|j: int| 0 <= j < order.len() ==> (#[trigger] order@[j]) < modules.len(),
            out@ == "(function(){"@ + sources_in(graph, ints(order@).take(k as int)),
        decreases order.len() - k,
    {
        let module = &modules[order[k]];
        proof {
            assert(graph[order@[k as int] as int] == modules@[order@[k as int] as int]@);
            assert(ints(order@).take(k + 1).drop_last() == ints(order@).take(k as int));
            assert(ints(order@).take(k + 1).last() == order@[k as int] as int);
        }
        let source = chars_of(module.source.as_str());
        push_all(&mut out, source.as_slice());
        k += 1;
    }
    assert(ints(order@).take(k as int) == ints(order@));
    let open = chars_of("return{");
    push_all(&mut out, open.as_slice());
    let exports = &modules[at].exports;
    assert(graph[at as int] == modules@[at as int]@);
    let ghost head = out@;
    let mut e: usize = 0;
    assert(exports.deep_view().take(0) =~= Seq::empty());
    while e < exports.len()
        invariant
            e <= exports.len(),
            out@ == head + export_list(exports.deep_view().take(e as int)),
        decreases exports.len() - e,
    {
        proof {
            let all_exports = exports.deep_view();
            assert(all_exports[e as int] == exports@[e as int].deep_view());
            assert(all_exports.take(e + 1).drop_last() == all_exports.take(e as int));
            assert(all_exports.take(e + 1).last() == all_exports[e as int]);
        }
        if e > 0 {
            out.push(',');
        }
        let outer = chars_of(exports[e].0.as_str());
        let inner = chars_of(exports[e].1.as_str());
        push_all(&mut out, outer.as_slice());
        out.push(':');
        push_all(&mut out, inner.as_slice());
        e += 1;
    }
    assert(exports.deep_view().take(e as int) == exports.deep_view());
    let close = chars_of("};})();");
    push_all(&mut out, close.as_slice());
    Ok(string_of(out.as_slice()))
}

} // verus!
