//! Character-level helpers. The rest of the library works on `&[char]` and
//! converts at its edges, so that every text operation it relies on is proved
//! here against `Seq<char>`.
use vstd::prelude::*;

verus! {

/// `String::push` appends one character to the end of the string.
pub assume_specification[ String::push ](s: &mut String, c: char)
    ensures
        final(s)@ == old(s)@.push(c),
;

/// The characters of `s`, in order.
pub fn chars_of(s: &str) -> (v: Vec<char>)
    ensures
        v@ == s@,
{
    let mut v: Vec<char> = Vec::new();
    for c in it: s.chars()
        invariant
            it.seq() == s@,
            v@ == it.seq().take(it.index()),
    {
        v.push(c);
        assert(it.seq().take(it.index() + 1) == it.seq().take(it.index()).push(c));
    }
    assert(s@.take(s@.len() as int) == s@);
    v
}

/// The string made of the characters of `v`, in order.
pub fn string_of(v: &[char]) -> (s: String)
    ensures
        s@ == v@,
{
    let mut s = String::new();
    let mut i: usize = 0;
    while i < v.len()
        invariant
            i <= v.len(),
            s@ == v@.take(i as int),
        decreases v.len() - i,
    {
        s.push(v[i]);
        i += 1;
        assert(v@.take(i as int) == v@.take(i - 1).push(v@[i - 1]));
    }
    assert(v@.take(v@.len() as int) == v@);
    s
}

/// Whether `a` and `b` hold the same characters.
pub fn same_chars(a: &[char], b: &[char]) -> (r: bool)
    ensures
        r == (a@ == b@),
{
    if a.len() != b.len() {
        return false;
    }
    let mut i: usize = 0;
    while i < a.len()
        invariant
            i <= a.len(),
            a.len() == b.len(),
            forall|j: int| 0 <= j < i ==> a@[j] == b@[j],
        decreases a.len() - i,
    {
        if a[i] != b[i] {
            return false;
        }
        i += 1;
    }
    assert(a@ =~= b@);
    true
}

/// Whether `s` begins with `p`.
pub fn starts_with(s: &[char], p: &[char]) -> (r: bool)
    ensures
        r == p@.is_prefix_of(s@),
{
    if p.len() > s.len() {
        return false;
    }
    let mut i: usize = 0;
    while i < p.len()
        invariant
            i <= p.len() <= s.len(),
            forall|j: int| 0 <= j < i ==> s@[j] == p@[j],
        decreases p.len() - i,
    {
        if s[i] != p[i] {
            assert(s@.subrange(0, p@.len() as int)[i as int] != p@[i as int]);
            return false;
        }
        i += 1;
    }
    assert(p@ =~= s@.subrange(0, p@.len() as int));
    true
}

/// Appends to `dst` the characters of `src` from position `from` on, which
/// are none where `src` is shorter.
pub fn push_from(dst: &mut Vec<char>, src: &[char], from: usize)
    ensures
        final(dst)@ == old(dst)@ + if from <= src.len() {
            src@.skip(from as int)
        } else {
            Seq::empty()
        },
{
    if from > src.len() {
        assert(dst@ =~= old(dst)@ + Seq::<char>::empty());
        return;
    }
    let mut i: usize = from;
    while i < src.len()
        invariant
            from <= i <= src.len(),
            dst@ == old(dst)@ + src@.subrange(from as int, i as int),
        decreases src.len() - i,
    {
        dst.push(src[i]);
        i += 1;
        assert(src@.subrange(from as int, i as int) == src@.subrange(from as int, i - 1).push(
            src@[i - 1],
        ));
    }
    assert(src@.subrange(from as int, src@.len() as int) == src@.skip(from as int));
}

/// Appends to `dst` all the characters of `src`.
pub fn push_all(dst: &mut Vec<char>, src: &[char])
    ensures
        final(dst)@ == old(dst)@ + src@,
{
    push_from(dst, src, 0);
    assert(src@.skip(0) == src@);
}

/// The first `n` characters of `s`, and all of them where it has fewer.
pub fn take_chars(s: &[char], n: usize) -> (head: Vec<char>)
    ensures
        head@ == s@.take(if n <= s.len() { n as int } else { s.len() as int }),
{
    let end: usize = if n <= s.len() { n } else { s.len() };
    let mut head: Vec<char> = Vec::new();
    let mut i: usize = 0;
    while i < end
        invariant
            i <= end <= s.len(),
            head@ == s@.take(i as int),
        decreases end - i,
    {
        head.push(s[i]);
        i += 1;
        assert(s@.take(i as int) == s@.take(i - 1).push(s@[i - 1]));
    }
    head
}

/// `s` with every occurrence of `from` replaced by `to`, read from the left;
/// occurrences do not overlap. An empty `from` occurs nowhere.
pub open spec fn replaced(s: Seq<char>, from: Seq<char>, to: Seq<char>) -> Seq<char>
    decreases s.len(),
{
    if from.len() == 0 || s.len() < from.len() {
        s
    } else if from.is_prefix_of(s) {
        to + replaced(s.skip(from.len() as int), from, to)
    } else {
        seq![s[0]] + replaced(s.skip(1), from, to)
    }
}

/// Replaces every occurrence of `from` in `s` by `to`.
pub fn replace_all(s: &[char], from: &[char], to: &[char]) -> (out: Vec<char>)
    ensures
        out@ == replaced(s@, from@, to@),
{
    let mut out: Vec<char> = Vec::new();
    if from.len() == 0 {
        push_all(&mut out, s);
        return out;
    }
    let mut i: usize = 0;
    assert(s@.skip(0) == s@);
    while i < s.len() && s.len() - i >= from.len()
        invariant
            i <= s.len(),
            from.len() > 0,
            replaced(s@, from@, to@) == out@ + replaced(s@.skip(i as int), from@, to@),
        decreases s.len() - i,
    {
        let ghost rest = s@.skip(i as int);
        let mut k: usize = 0;
        while k < from.len() && s[i + k] == from[k]
            invariant
                k <= from.len(),
                i + from.len() <= s.len(),
                rest == s@.skip(i as int),
                forall|j: int| 0 <= j < k ==> rest[j] == from@[j],
            decreases from.len() - k,
        {
            k += 1;
        }
        if k == from.len() {
            assert(from@ =~= rest.subrange(0, from@.len() as int));
            push_all(&mut out, to);
            assert(rest.skip(from@.len() as int) == s@.skip(i + from.len()));
            assert(replaced(rest, from@, to@) == to@ + replaced(rest.skip(from@.len() as int), from@, to@));
            i += from.len();
        } else {
            assert(rest.subrange(0, from@.len() as int)[k as int] != from@[k as int]);
            out.push(s[i]);
            assert(rest.skip(1) == s@.skip(i + 1));
            assert(replaced(rest, from@, to@) == seq![rest[0]] + replaced(rest.skip(1), from@, to@));
            i += 1;
        }
    }
    push_from(&mut out, s, i);
    out
}

/// Whether `a` and `b` are the same text.
pub fn str_eq(a: &str, b: &str) -> (r: bool)
    ensures
        r == (a@ == b@),
{
    let x = chars_of(a);
    let y = chars_of(b);
    same_chars(x.as_slice(), y.as_slice())
}

/// `a` followed by `b`.
pub fn append(a: &str, b: &str) -> (s: String)
    ensures
        s@ == a@ + b@,
{
    let mut v = chars_of(a);
    let w = chars_of(b);
    push_all(&mut v, w.as_slice());
    string_of(v.as_slice())
}

/// The position of the first `c` in `s`, if there is one.
pub open spec fn first_index(s: Seq<char>, c: char) -> Option<int> {
    if exists|i: int| 0 <= i < s.len() && s[i] == c {
        Some(
            choose|i: int|
                0 <= i < s.len() && s[i] == c && forall|j: int| 0 <= j < i ==> s[j] != c,
        )
    } else {
        None
    }
}

/// `first_index` returns the least position that holds `c`, and `None` exactly
/// when no position does.
pub proof fn lemma_first_index(s: Seq<char>, c: char)
    ensures
        match first_index(s, c) {
            Some(i) => 0 <= i < s.len() && s[i] == c && forall|j: int| 0 <= j < i ==> s[j] != c,
            None => forall|j: int| 0 <= j < s.len() ==> s[j] != c,
        },
{
    if exists|i: int| 0 <= i < s.len() && s[i] == c {
        let w = choose|i: int| 0 <= i < s.len() && s[i] == c;
        lemma_least_index(s, c, w);
    }
}

proof fn lemma_least_index(s: Seq<char>, c: char, w: int)
    requires
        0 <= w < s.len(),
        s[w] == c,
    ensures
        exists|i: int|
            0 <= i < s.len() && s[i] == c && forall|j: int| 0 <= j < i ==> s[j] != c,
    decreases w,
{
    if exists|k: int| 0 <= k < w && s[k] == c {
        let k = choose|k: int| 0 <= k < w && s[k] == c;
        lemma_least_index(s, c, k);
    } else {
        assert(0 <= w < s.len() && s[w] == c && forall|j: int| 0 <= j < w ==> s[j] != c);
    }
}

/// Finds the first `c` in `s`.
pub fn find_char(s: &[char], c: char) -> (r: Option<usize>)
    ensures
        match r {
            Some(i) => i < s.len() && first_index(s@, c) == Some(i as int),
            None => first_index(s@, c) is None,
        },
{
    proof {
        lemma_first_index(s@, c);
    }
    let mut i: usize = 0;
    while i < s.len()
        invariant
            i <= s.len(),
            forall|j: int| 0 <= j < i ==> s@[j] != c,
        decreases s.len() - i,
    {
        if s[i] == c {
            return Some(i);
        }
        i += 1;
    }
    None
}

} // verus!
