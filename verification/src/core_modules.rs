//! The registry of built-in modules: a fixed table from the name a script
//! imports to the file that holds the module's source.
use crate::text::{chars_of, same_chars};
use vstd::prelude::*;

verus! {

/// The built-in modules, each with the file of its source. Names are matched
/// exactly as written.
pub open spec fn core_module_table() -> Seq<(Seq<char>, Seq<char>)> {
    seq![
        ("console"@, "console.js"@),
        ("events"@, "events.js"@),
        ("process"@, "process.js"@),
        ("timers"@, "timers.js"@),
        ("assert"@, "assert.js"@),
        ("util"@, "util.js"@),
        ("fs"@, "fs.js"@),
        ("perf_hooks"@, "perf-hooks.js"@),
        ("colors"@, "colors.js"@),
        ("dns"@, "dns.js"@),
        ("net"@, "net.js"@),
        ("test"@, "test.js"@),
        ("stream"@, "stream.js"@),
        ("http"@, "http.js"@),
        ("@web/abort"@, "abort-controller.js"@),
        ("@web/text_encoding"@, "text-encoding.js"@),
        ("@web/clone"@, "structured-clone.js"@),
        ("@web/fetch"@, "fetch.js"@),
    ]
}

/// The first row of `table` at or after `from` whose name is `name`.
pub open spec fn row_of(table: Seq<(Seq<char>, Seq<char>)>, name: Seq<char>, from: int) -> Option<
    int,
>
    decreases table.len() - from,
{
    if from < 0 || from >= table.len() {
        None
    } else if table[from].0 == name {
        Some(from)
    } else {
        row_of(table, name, from + 1)
    }
}

/// The file of the built-in module `name`, if there is such a module.
pub open spec fn core_module_file_spec(name: Seq<char>) -> Option<Seq<char>> {
    match row_of(core_module_table(), name, 0) {
        Some(i) => Some(core_module_table()[i].1),
        None => None,
    }
}

/// Whether `name` is the name of a built-in module.
pub open spec fn is_core_name(name: Seq<char>) -> bool {
    core_module_file_spec(name) is Some
}

/// A name is built in exactly when the table has a row for it.
pub proof fn lemma_core_names(name: Seq<char>)
    ensures
        is_core_name(name) <==> exists|i: int|
            0 <= i < core_module_table().len() && (#[trigger] core_module_table()[i]).0 == name,
{
    lemma_row_of(core_module_table(), name, 0);
}

proof fn lemma_row_of(table: Seq<(Seq<char>, Seq<char>)>, name: Seq<char>, from: int)
    requires
        0 <= from,
    ensures
        match row_of(table, name, from) {
            Some(i) => from <= i < table.len() && table[i].0 == name,
            None => forall|j: int| from <= j < table.len() ==> (#[trigger] table[j]).0 != name,
        },
    decreases table.len() - from,
{
    if from < table.len() && table[from].0 != name {
        lemma_row_of(table, name, from + 1);
    }
}

/// The registry as data.
pub fn core_modules() -> (table: Vec<(&'static str, &'static str)>)
    ensures
        table.deep_view() == core_module_table(),
{
    let mut table: Vec<(&'static str, &'static str)> = Vec::new();
    table.push(("console", "console.js"));
    table.push(("events", "events.js"));
    table.push(("process", "process.js"));
    table.push(("timers", "timers.js"));
    table.push(("assert", "assert.js"));
    table.push(("util", "util.js"));
    table.push(("fs", "fs.js"));
    table.push(("perf_hooks", "perf-hooks.js"));
    table.push(("colors", "colors.js"));
    table.push(("dns", "dns.js"));
    table.push(("net", "net.js"));
    table.push(("test", "test.js"));
    table.push(("stream", "stream.js"));
    table.push(("http", "http.js"));
    table.push(("@web/abort", "abort-controller.js"));
    table.push(("@web/text_encoding", "text-encoding.js"));
    table.push(("@web/clone", "structured-clone.js"));
    table.push(("@web/fetch", "fetch.js"));
    assert(table.deep_view() =~= core_module_table());
    table
}

/// The file that holds the source of the built-in module `name`.
pub fn core_module_file(name: &str) -> (file: Option<&'static str>)
    ensures
        file.deep_view() == core_module_file_spec(name@),
{
    let wanted = chars_of(name);
    let table = core_modules();
    let mut i: usize = 0;
    while i < table.len()
        invariant
            i <= table.len(),
            wanted@ == name@,
            table.deep_view() == core_module_table(),
            row_of(core_module_table(), name@, i as int) == row_of(core_module_table(), name@, 0),
        decreases table.len() - i,
    {
        let row = table[i];
        assert(table.deep_view()[i as int] == table@[i as int].deep_view());
        let key = chars_of(row.0);
        if same_chars(wanted.as_slice(), key.as_slice()) {
            return Some(row.1);
        }
        i += 1;
    }
    None
}

/// Whether `name` is a built-in module.
pub fn is_core_module(name: &str) -> (r: bool)
    ensures
        r == is_core_name(name@),
{
    core_module_file(name).is_some()
}

} // verus!
