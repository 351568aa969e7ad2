//! Reading a module's text: its import and export lines are taken out, and
//! what is left is what the module adds to the artifact. One statement
//! stands on one line.
use crate::text::{chars_of, push_all, push_from, starts_with, string_of, take_chars};
use vstd::prelude::*;

verus! {

/// Whether `c` is a blank within a line.
pub open spec fn is_blank(c: char) -> bool {
    c == ' ' || c == '\t' || c == '\r'
}

/// Whether `c` can stand in a name.
pub open spec fn is_name_char(c: char) -> bool {
    ('a' <= c && c <= 'z') || ('A' <= c && c <= 'Z') || ('0' <= c && c <= '9') || c == '_' || c == '$'
}

/// Whether `c` opens and closes a quoted text.
pub open spec fn is_quote(c: char) -> bool {
    c == '"' || c == '\''
}

/// The lines of `text` from position `at` on, where `current` holds what
/// has been read of the line that `at` stands in. Lines end at a line feed.
pub open spec fn lines_from(text: Seq<char>, at: int, current: Seq<char>) -> Seq<Seq<char>>
    decreases text.len() - at,
{
    if at < 0 || at >= text.len() {
        seq![current]
    } else if text[at] == '\n' {
        seq![current] + lines_from(text, at + 1, Seq::empty())
    } else {
        lines_from(text, at + 1, current.push(text[at]))
    }
}

/// The lines of `text`.
pub open spec fn lines_of(text: Seq<char>) -> Seq<Seq<char>> {
    lines_from(text, 0, Seq::empty())
}

/// `s` from its first character on that is no blank.
pub open spec fn without_leading_blanks(s: Seq<char>) -> Seq<char>
    decreases s.len(),
{
    if s.len() > 0 && is_blank(s[0]) {
        without_leading_blanks(s.skip(1))
    } else {
        s
    }
}

/// `s` up to its last character that is no blank.
pub open spec fn without_trailing_blanks(s: Seq<char>) -> Seq<char>
    decreases s.len(),
{
    if s.len() > 0 && is_blank(s.last()) {
        without_trailing_blanks(s.drop_last())
    } else {
        s
    }
}

/// `s` without the blanks at its ends.
pub open spec fn trimmed(s: Seq<char>) -> Seq<char> {
    without_trailing_blanks(without_leading_blanks(s))
}

/// The name that `s` holds from position `at` on, after `name`: the
/// characters up to the first that cannot stand in a name.
pub open spec fn name_from(s: Seq<char>, at: int, name: Seq<char>) -> Seq<char>
    decreases s.len() - at,
{
    if at < 0 || at >= s.len() || !is_name_char(s[at]) {
        name
    } else {
        name_from(s, at + 1, name.push(s[at]))
    }
}

/// The name that `s` begins with.
pub open spec fn leading_name(s: Seq<char>) -> Seq<char> {
    name_from(s, 0, Seq::empty())
}

/// The text up to the next `quote` in `s` from position `at` on, after
/// `inside`; `None` where no `quote` follows.
pub open spec fn closing_from(s: Seq<char>, at: int, quote: char, inside: Seq<char>) -> Option<
    Seq<char>,
>
    decreases s.len() - at,
{
    if at < 0 || at >= s.len() {
        None
    } else if s[at] == quote {
        Some(inside)
    } else {
        closing_from(s, at + 1, quote, inside.push(s[at]))
    }
}

/// The first quoted text in `s` from position `at` on: what stands between
/// the first quote and the next quote of its kind.
pub open spec fn quoted_from(s: Seq<char>, at: int) -> Option<Seq<char>>
    decreases s.len() - at,
{
    if at < 0 || at >= s.len() {
        None
    } else if is_quote(s[at]) {
        closing_from(s, at + 1, s[at], Seq::empty())
    } else {
        quoted_from(s, at + 1)
    }
}

/// The first quoted text in `s`.
pub open spec fn quoted(s: Seq<char>) -> Option<Seq<char>> {
    quoted_from(s, 0)
}

/// The name that a declaration declares: what follows `async function`,
/// `function`, `const`, `let` or `var`. `None` where `s` begins with none of
/// them.
pub open spec fn declared_name(s: Seq<char>) -> Option<Seq<char>> {
    if "async function "@.is_prefix_of(s) {
        Some(leading_name(s.skip("async function "@.len() as int)))
    } else if "function "@.is_prefix_of(s) {
        Some(leading_name(s.skip("function "@.len() as int)))
    } else if "const "@.is_prefix_of(s) {
        Some(leading_name(s.skip("const "@.len() as int)))
    } else if "let "@.is_prefix_of(s) {
        Some(leading_name(s.skip("let "@.len() as int)))
    } else if "var "@.is_prefix_of(s) {
        Some(leading_name(s.skip("var "@.len() as int)))
    } else {
        None
    }
}

/// What a line of a module says.
pub enum LineView {
    /// It imports the module of this specifier.
    Import(Seq<char>),
    /// It exports under the name `outer` what the module calls `inner`, and
    /// may declare it with `code`.
    Export { outer: Seq<char>, inner: Seq<char>, code: Option<Seq<char>> },
    /// It is a statement of the module.
    Code(Seq<char>),
}

/// What the line `line` says, blanks at its ends aside. An `import` line
/// names its module between quotes. An `export default` line names what it
/// exports or declares it; an `export` line declares what it exports. Any
/// other line is a statement.
pub open spec fn read_line(line: Seq<char>) -> LineView {
    let t = trimmed(line);
    if "import"@.is_prefix_of(t) {
        match quoted(t) {
            Some(specifier) => LineView::Import(specifier),
            None => LineView::Code(t),
        }
    } else if "export default "@.is_prefix_of(t) {
        let rest = t.skip("export default "@.len() as int);
        match declared_name(rest) {
            Some(name) => LineView::Export { outer: "default"@, inner: name, code: Some(rest) },
            None => LineView::Export { outer: "default"@, inner: leading_name(rest), code: None },
        }
    } else if "export "@.is_prefix_of(t) {
        let rest = t.skip("export "@.len() as int);
        match declared_name(rest) {
            Some(name) => LineView::Export { outer: name, inner: name, code: Some(rest) },
            None => LineView::Code(t),
        }
    } else {
        LineView::Code(t)
    }
}

/// What a module's text holds.
pub struct ScriptView {
    pub imports: Seq<Seq<char>>,
    pub exports: Seq<(Seq<char>, Seq<char>)>,
    pub source: Seq<char>,
}

/// `source` with the statement `code` after it on a line of its own; an
/// empty statement adds nothing.
pub open spec fn with_code(source: Seq<char>, code: Seq<char>) -> Seq<char> {
    if code.len() == 0 {
        source
    } else {
        source + code + seq!['\n']
    }
}

/// `script` with what `line` says.
pub open spec fn with_line(script: ScriptView, line: LineView) -> ScriptView {
    match line {
        LineView::Import(specifier) => ScriptView { imports: script.imports.push(specifier), ..script },
        LineView::Export { outer, inner, code } => ScriptView {
            imports: script.imports,
            exports: script.exports.push((outer, inner)),
            source: match code {
                Some(c) => with_code(script.source, c),
                None => script.source,
            },
        },
        LineView::Code(code) => ScriptView { source: with_code(script.source, code), ..script },
    }
}

/// What the lines `lines` hold, read from the first to the last.
pub open spec fn read_lines(lines: Seq<Seq<char>>) -> ScriptView
    decreases lines.len(),
{
    if lines.len() == 0 {
        ScriptView { imports: Seq::empty(), exports: Seq::empty(), source: Seq::empty() }
    } else {
        with_line(read_lines(lines.drop_last()), read_line(lines.last()))
    }
}

/// What the module text `text` holds.
pub open spec fn read_script_spec(text: Seq<char>) -> ScriptView {
    read_lines(lines_of(text))
}

/// What a module's text holds: the specifiers it imports, in their order;
/// what it exports, as outer and inner name; and its statements.
#[derive(Debug, Clone, PartialEq, Eq)]
pub struct Script {
    pub imports: Vec<String>,
    pub exports: Vec<(String, String)>,
    pub source: String,
}

impl View for Script {
    type V = ScriptView;

    open spec fn view(&self) -> ScriptView {
        ScriptView {
            imports: self.imports.deep_view(),
            exports: self.exports.deep_view(),
            source: self.source@,
        }
    }
}

/// Takes the blanks off the ends of `s`.
pub fn trim(s: &[char]) -> (t: Vec<char>)
    ensures
        t@ == trimmed(s@),
{
    let mut i: usize = 0;
    assert(s@.skip(0) == s@);
    while i < s.len() && (s[i] == ' ' || s[i] == '\t' || s[i] == '\r')
        invariant
            i <= s.len(),
            without_leading_blanks(s@) == without_leading_blanks(s@.skip(i as int)),
        decreases s.len() - i,
    {
        assert(s@.skip(i as int).skip(1) == s@.skip(i + 1));
        i += 1;
    }
    let mut head: Vec<char> = Vec::new();
    push_from(&mut head, s, i);
    assert(head@ == without_leading_blanks(s@));
    let mut j: usize = head.len();
    assert(head@.take(j as int) == head@);
    while j > 0 && (head[j - 1] == ' ' || head[j - 1] == '\t' || head[j - 1] == '\r')
        invariant
            j <= head.len(),
            without_trailing_blanks(head@) == without_trailing_blanks(head@.take(j as int)),
        decreases j,
    {
        assert(head@.take(j as int).drop_last() == head@.take(j - 1));
        j -= 1;
    }
    take_chars(head.as_slice(), j)
}

/// Reads the name that `s` has at position `from`.
pub fn read_name(s: &[char], from: usize) -> (name: Vec<char>)
    ensures
        name@ == name_from(s@, from as int, Seq::empty()),
{
    let mut name: Vec<char> = Vec::new();
    let mut at: usize = from;
    while at < s.len() && is_name(s[at])
        invariant
            from <= at,
            name_from(s@, from as int, Seq::empty()) == name_from(s@, at as int, name@),
        decreases s.len() - at,
    {
        name.push(s[at]);
        at += 1;
    }
    name
}

/// Whether `c` can stand in a name.
pub fn is_name(c: char) -> (r: bool)
    ensures
        r == is_name_char(c),
{
    ('a' <= c && c <= 'z') || ('A' <= c && c <= 'Z') || ('0' <= c && c <= '9') || c == '_' || c == '$'
}

/// Reads the first quoted text in `s`.
pub fn read_quoted(s: &[char]) -> (inside: Option<Vec<char>>)
    ensures
        inside.deep_view() == quoted(s@),
{
    let mut at: usize = 0;
    while at < s.len() && !(s[at] == '"' || s[at] == '\'')
        invariant
            at <= s.len(),
            quoted(s@) == quoted_from(s@, at as int),
        decreases s.len() - at,
    {
        at += 1;
    }
    if at >= s.len() {
        return None;
    }
    let quote = s[at];
    let mut inside: Vec<char> = Vec::new();
    let mut k: usize = at + 1;
    while k < s.len() && s[k] != quote
        invariant
            at < k <= s.len(),
            quoted(s@) == closing_from(s@, k as int, quote, inside@),
        decreases s.len() - k,
    {
        inside.push(s[k]);
        k += 1;
    }
    if k >= s.len() {
        None
    } else {
        assert(inside.deep_view() =~= inside@);
        Some(inside)
    }
}

/// What follows `keyword` in `s`, where `s` begins with it.
pub fn after_keyword(s: &[char], keyword: &str) -> (rest: Option<Vec<char>>)
    ensures
        match rest {
            Some(r) => keyword@.is_prefix_of(s@) && r@ == s@.skip(keyword@.len() as int),
            None => !keyword@.is_prefix_of(s@),
        },
{
    let word = chars_of(keyword);
    if starts_with(s, word.as_slice()) {
        let mut rest: Vec<char> = Vec::new();
        push_from(&mut rest, s, word.len());
        Some(rest)
    } else {
        None
    }
}

/// Reads the name that the declaration `s` declares.
pub fn read_declared(s: &[char]) -> (name: Option<Vec<char>>)
    ensures
        name.deep_view() == declared_name(s@),
{
    let rest = match after_keyword(s, "async function ") {
        Some(r) => r,
        None => match after_keyword(s, "function ") {
            Some(r) => r,
            None => match after_keyword(s, "const ") {
                Some(r) => r,
                None => match after_keyword(s, "let ") {
                    Some(r) => r,
                    None => match after_keyword(s, "var ") {
                        Some(r) => r,
                        None => {
                            return None;
                        },
                    },
                },
            },
        },
    };
    let name = read_name(rest.as_slice(), 0);
    assert(name.deep_view() =~= name@);
    Some(name)
}

/// Reads a module's text.
pub fn read_script(text: &str) -> (script: Script)
    ensures
        script@ == read_script_spec(text@),
{
    let chars = chars_of(text);
    let mut imports: Vec<String> = Vec::new();
    let mut exports: Vec<(String, String)> = Vec::new();
    let mut source: Vec<char> = Vec::new();
    let mut current: Vec<char> = Vec::new();
    let ghost mut done: Seq<Seq<char>> = Seq::empty();
    let mut at: usize = 0;
    let mut finished: bool = false;
    proof {
        assert(imports.deep_view() =~= Seq::empty());
        assert(exports.deep_view() =~= Seq::empty());
        assert(done + lines_from(text@, 0, Seq::empty()) =~= lines_of(text@));
    }
    while !finished
        invariant
            at <= chars.len(),
            chars@ == text@,
            !finished ==> lines_of(text@) == done + lines_from(text@, at as int, current@),
            finished ==> lines_of(text@) == done,
            imports.deep_view() == read_lines(done).imports,
            exports.deep_view() == read_lines(done).exports,
            source@ == read_lines(done).source,
        decreases chars.len() - at, if finished { 0int } else { 1int },
    {
        if at < chars.len() && chars[at] != '\n' {
            current.push(chars[at]);
            at += 1;
        } else {
            let ghost line = current@;
            let ghost before = read_lines(done);
            proof {
                if at < chars.len() {
                    assert(done + (seq![line] + lines_from(text@, at + 1, Seq::empty())) =~= done.push(
                        line,
                    ) + lines_from(text@, at + 1, Seq::empty()));
                } else {
                    assert(done + seq![line] =~= done.push(line));
                }
                assert(done.push(line).drop_last() == done);
                assert(done.push(line).last() == line);
                done = done.push(line);
                assert(read_lines(done) == with_line(before, read_line(line)));
            }
            let t = trim(current.as_slice());
            current = Vec::new();
            if at < chars.len() {
                at += 1;
            } else {
                finished = true;
            }
            let ghost held_imports = imports.deep_view();
            let ghost held_exports = exports.deep_view();
            let word = chars_of("import");
            if starts_with(t.as_slice(), word.as_slice()) {
                match read_quoted(t.as_slice()) {
                    Some(specifier) => {
                        assert(specifier.deep_view() =~= specifier@);
                        imports.push(string_of(specifier.as_slice()));
                        assert(imports.deep_view() =~= held_imports.push(specifier@));
                    },
                    None => {
                        add_code(&mut source, t.as_slice());
                    },
                }
            } else if let Some(rest) = after_keyword(t.as_slice(), "export default ") {
                match read_declared(rest.as_slice()) {
                    Some(name) => {
                        assert(name.deep_view() =~= name@);
                        exports.push(("default".to_owned(), string_of(name.as_slice())));
                        assert(exports.deep_view() =~= held_exports.push(("default"@, name@)));
                        add_code(&mut source, rest.as_slice());
                    },
                    None => {
                        let name = read_name(rest.as_slice(), 0);
                        exports.push(("default".to_owned(), string_of(name.as_slice())));
                        assert(exports.deep_view() =~= held_exports.push(("default"@, name@)));
                    },
                }
            } else if let Some(rest) = after_keyword(t.as_slice(), "export ") {
                match read_declared(rest.as_slice()) {
                    Some(name) => {
                        assert(name.deep_view() =~= name@);
                        exports.push((string_of(name.as_slice()), string_of(name.as_slice())));
                        assert(exports.deep_view() =~= held_exports.push((name@, name@)));
                        add_code(&mut source, rest.as_slice());
                    },
                    None => {
                        add_code(&mut source, t.as_slice());
                    },
                }
            } else {
                add_code(&mut source, t.as_slice());
            }
        }
    }
    Script { imports, exports, source: string_of(source.as_slice()) }
}

/// Adds the statement `code` to `source`, on a line of its own.
fn add_code(source: &mut Vec<char>, code: &[char])
    ensures
        final(source)@ == with_code(old(source)@, code@),
{
    if code.len() > 0 {
        push_all(source, code);
        source.push('\n');
    }
}

} // verus!
