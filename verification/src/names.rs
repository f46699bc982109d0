//! Package names and the requirement strings of `pyproject.toml`.
use vstd::prelude::*;
use crate::text::{chars_of, lowercase, string_from_chars, to_lowercase, trim, trimmed};

verus! {

/// The separators that PEP 503 normalisation folds into `-`.
pub open spec fn is_name_separator(c: char) -> bool {
    c == '-' || c == '_' || c == '.'
}

/// The normalised form of a package name: lowercased, with every `-`, `_` and `.`
/// turned into `-`.
pub open spec fn normalized(name: Seq<char>) -> Seq<char> {
    lowercase(name).map_values(|c: char| if is_name_separator(c) { '-' } else { c })
}

/// Normalises a package name, so that `Foo_Bar.baz` and `foo-bar-baz` compare equal.
pub fn normalize_name(name: &str) -> (r: String)
    ensures
        r@ == normalized(name@),
{
    let low = to_lowercase(name);
    let cs = chars_of(low.as_str());
    let mut out: Vec<char> = Vec::new();
    let mut i: usize = 0;
    while i < cs.len()
        invariant
            cs@ == lowercase(name@),
            i <= cs.len(),
            out@ == cs@.take(i as int).map_values(
                |c: char| if is_name_separator(c) { '-' } else { c },
            ),
        decreases cs.len() - i,
    {
        let c = cs[i];
        let d = if c == '-' || c == '_' || c == '.' {
            '-'
        } else {
            c
        };
        out.push(d);
        i = i + 1;
        assert(out@ =~= cs@.take(i as int).map_values(
            |c: char| if is_name_separator(c) { '-' } else { c },
        ));
    }
    assert(cs@.take(cs.len() as int) =~= cs@);
    string_from_chars(&out)
}

/// `char::is_ascii_whitespace`: space, tab, line feed, form feed, carriage return.
pub open spec fn is_ascii_space(c: char) -> bool {
    c == ' ' || c == '\t' || c == '\n' || c == '\x0C' || c == '\r'
}

/// A character that ends the name part of a requirement string such as
/// `requests[socks]>=2.31 ; python_version > "3.8"`.
pub open spec fn ends_name(c: char) -> bool {
    c == '[' || c == '>' || c == '<' || c == '=' || c == '!' || c == '~' || c == ';'
        || is_ascii_space(c)
}

/// The index of the first character of `s` that ends a name, or `s.len()`.
pub open spec fn name_end(s: Seq<char>) -> int
    decreases s.len(),
{
    if s.len() == 0 {
        0
    } else if ends_name(s[0]) {
        0
    } else {
        1 + name_end(s.drop_first())
    }
}

/// The name part of a requirement string.
pub open spec fn requirement_name(s: Seq<char>) -> Seq<char> {
    s.take(name_end(s))
}

/// `name_end` is the first position whose character ends a name.
pub proof fn lemma_name_end(s: Seq<char>, k: int)
    requires
        0 <= k <= s.len(),
        forall|j: int| 0 <= j < k ==> !ends_name(#[trigger] s[j]),
        k == s.len() || ends_name(s[k]),
    ensures
        name_end(s) == k,
    decreases s.len(),
{
    if s.len() > 0 && k > 0 {
        let t = s.drop_first();
        assert forall|j: int| 0 <= j < k - 1 implies !ends_name(#[trigger] t[j]) by {
            assert(t[j] == s[j + 1]);
        }
        if k < s.len() {
            assert(t[k - 1] == s[k]);
        }
        lemma_name_end(t, k - 1);
    }
}

fn ends_name_char(c: char) -> (r: bool)
    ensures
        r == ends_name(c),
{
    c == '[' || c == '>' || c == '<' || c == '=' || c == '!' || c == '~' || c == ';' || c == ' '
        || c == '\t' || c == '\n' || c == '\x0C' || c == '\r'
}

/// The name part of a requirement string: everything before the first `[`, version
/// operator, `;` or ASCII whitespace.
pub fn extract_name(dep_str: &str) -> (r: String)
    ensures
        r@ == requirement_name(dep_str@),
{
    let cs = chars_of(dep_str);
    let mut i: usize = 0;
    while i < cs.len() && !ends_name_char(cs[i])
        invariant
            cs@ == dep_str@,
            i <= cs.len(),
            forall|j: int| 0 <= j < i ==> !ends_name(#[trigger] cs@[j]),
        decreases cs.len() - i,
    {
        i = i + 1;
    }
    proof {
        lemma_name_end(cs@, i as int);
    }
    let mut out: Vec<char> = Vec::new();
    let mut k: usize = 0;
    while k < i
        invariant
            i <= cs.len(),
            k <= i,
            out@ == cs@.take(k as int),
        decreases i - k,
    {
        out.push(cs[k]);
        k = k + 1;
        assert(out@ =~= cs@.take(k as int));
    }
    string_from_chars(&out)
}

/// The index of the first `c` in `s`, or `s.len()` when there is none.
pub open spec fn index_of_char(s: Seq<char>, c: char) -> int
    decreases s.len(),
{
    if s.len() == 0 {
        0
    } else if s[0] == c {
        0
    } else {
        1 + index_of_char(s.drop_first(), c)
    }
}

/// `index_of_char` is the first position that holds `c`.
pub proof fn lemma_index_of_char(s: Seq<char>, c: char, k: int)
    requires
        0 <= k <= s.len(),
        forall|j: int| 0 <= j < k ==> #[trigger] s[j] != c,
        k == s.len() || s[k] == c,
    ensures
        index_of_char(s, c) == k,
    decreases s.len(),
{
    if s.len() > 0 && k > 0 {
        let t = s.drop_first();
        assert forall|j: int| 0 <= j < k - 1 implies #[trigger] t[j] != c by {
            assert(t[j] == s[j + 1]);
        }
        if k < s.len() {
            assert(t[k - 1] == s[k]);
        }
        lemma_index_of_char(t, c, k - 1);
    }
}

/// `index_of_char` never passes the end of the sequence.
pub proof fn lemma_index_of_char_bound(s: Seq<char>, c: char)
    ensures
        0 <= index_of_char(s, c) <= s.len(),
        index_of_char(s, c) < s.len() ==> s[index_of_char(s, c)] == c,
        forall|j: int| 0 <= j < index_of_char(s, c) ==> s[j] != c,
    decreases s.len(),
{
    if s.len() > 0 && s[0] != c {
        let t = s.drop_first();
        lemma_index_of_char_bound(t, c);
        assert forall|j: int| 0 <= j < index_of_char(s, c) implies s[j] != c by {
            if j > 0 {
                assert(s[j] == t[j - 1]);
            }
        }
    }
}

/// The pieces of `s` between occurrences of `sep` (`str::split` with a `char`).
pub open spec fn split_on(s: Seq<char>, sep: char) -> Seq<Seq<char>>
    decreases s.len(),
{
    let i = index_of_char(s, sep);
    proof {
        lemma_index_of_char_bound(s, sep);
    }
    if i >= s.len() {
        seq![s]
    } else {
        seq![s.take(i)] + split_on(s.skip(i + 1), sep)
    }
}

/// Finds `c` in `cs` at or after `from`; returns the index, or `cs.len()`.
pub fn find_char_from(cs: &Vec<char>, from: usize, c: char) -> (r: usize)
    requires
        from <= cs.len(),
    ensures
        r == from + index_of_char(cs@.skip(from as int), c),
        from <= r <= cs.len(),
{
    let mut i = from;
    while i < cs.len() && cs[i] != c
        invariant
            from <= i <= cs.len(),
            forall|j: int| from <= j < i ==> cs@[j] != c,
        decreases cs.len() - i,
    {
        i = i + 1;
    }
    proof {
        let t = cs@.skip(from as int);
        assert forall|j: int| 0 <= j < i - from implies #[trigger] t[j] != c by {
            assert(t[j] == cs@[from + j]);
        }
        lemma_index_of_char(t, c, i - from);
    }
    i
}

/// Splits `cs` on `sep`.
pub fn split_chars(cs: &Vec<char>, sep: char) -> (r: Vec<Vec<char>>)
    ensures
        r@.map_values(|p: Vec<char>| p@) == split_on(cs@, sep),
{
    let mut r: Vec<Vec<char>> = Vec::new();
    let mut start: usize = 0;
    assert(cs@.skip(0) =~= cs@);
    assert(r@.map_values(|p: Vec<char>| p@) + split_on(cs@, sep) =~= split_on(cs@, sep));
    loop
        invariant
            start <= cs.len(),
            r@.map_values(|p: Vec<char>| p@) + split_on(cs@.skip(start as int), sep) == split_on(cs@, sep),
        decreases cs.len() - start,
    {
        let i = find_char_from(cs, start, sep);
        let mut piece: Vec<char> = Vec::new();
        let mut k = start;
        while k < i
            invariant
                start <= k <= i,
                i <= cs.len(),
                piece@ == cs@.subrange(start as int, k as int),
            decreases i - k,
        {
            piece.push(cs[k]);
            k = k + 1;
            assert(piece@ =~= cs@.subrange(start as int, k as int));
        }
        let ghost rest = cs@.skip(start as int);
        let ghost before = r@.map_values(|p: Vec<char>| p@);
        proof {
            lemma_index_of_char_bound(rest, sep);
        }
        r.push(piece);
        assert(r@.map_values(|p: Vec<char>| p@) =~= before.push(cs@.subrange(start as int, i as int)));
        if i == cs.len() {
            assert(rest.take(i - start) =~= rest);
            assert(split_on(rest, sep) == seq![rest]);
            assert(cs@.subrange(start as int, i as int) =~= rest);
            assert(before.push(rest) =~= before + seq![rest]);
            return r;
        }
        proof {
            assert(rest.take(i - start) =~= cs@.subrange(start as int, i as int));
            assert(rest.skip(i - start + 1) =~= cs@.skip(i + 1));
            assert(split_on(rest, sep) == seq![rest.take(i - start)] + split_on(rest.skip(i - start + 1), sep));
            assert(before.push(cs@.subrange(start as int, i as int)) + split_on(cs@.skip(i + 1), sep)
                =~= before + split_on(rest, sep));
        }
        start = i + 1;
    }
}

/// The extras named by a list of raw pieces: each trimmed and lowercased, empty
/// ones dropped.
pub open spec fn cleaned_extras(pieces: Seq<Seq<char>>) -> Seq<Seq<char>>
    decreases pieces.len(),
{
    if pieces.len() == 0 {
        seq![]
    } else {
        let rest = cleaned_extras(pieces.drop_last());
        let x = lowercase(trimmed(pieces.last()));
        if x.len() > 0 {
            rest.push(x)
        } else {
            rest
        }
    }
}

/// The extras requested by a requirement string such as `uvicorn[standard, ws]`:
/// the comma-separated list between the first `[` and the first `]` after it,
/// each item trimmed and lowercased, empty items dropped. Empty when there is no
/// such pair of brackets.
pub open spec fn requirement_extras(s: Seq<char>) -> Seq<Seq<char>> {
    let start = index_of_char(s, '[');
    if start >= s.len() {
        seq![]
    } else {
        let rel = index_of_char(s.skip(start), ']');
        if start + rel >= s.len() {
            seq![]
        } else {
            cleaned_extras(split_on(s.subrange(start + 1, start + rel), ','))
        }
    }
}

/// The extras requested by a requirement string.
pub fn extract_extras(dep_str: &str) -> (r: Vec<String>)
    ensures
        r.deep_view() == requirement_extras(dep_str@),
{
    let cs = chars_of(dep_str);
    let start = find_char_from(&cs, 0, '[');
    assert(cs@.skip(0) =~= cs@);
    if start == cs.len() {
        return Vec::new();
    }
    let end = find_char_from(&cs, start, ']');
    if end == cs.len() {
        return Vec::new();
    }
    proof {
        lemma_index_of_char_bound(cs@, '[');
        lemma_index_of_char_bound(cs@.skip(start as int), ']');
        assert(cs@.skip(start as int)[0] == '[');
    }
    let mut content: Vec<char> = Vec::new();
    let mut k = start + 1;
    while k < end
        invariant
            start < k <= end,
            end <= cs.len(),
            content@ == cs@.subrange(start + 1, k as int),
        decreases end - k,
    {
        content.push(cs[k]);
        k = k + 1;
        assert(content@ =~= cs@.subrange(start + 1, k as int));
    }
    let pieces = split_chars(&content, ',');
    let ghost ps = pieces@.map_values(|p: Vec<char>| p@);
    let mut r: Vec<String> = Vec::new();
    let mut i: usize = 0;
    while i < pieces.len()
        invariant
            ps == pieces@.map_values(|p: Vec<char>| p@),
            i <= pieces.len(),
            r.deep_view() == cleaned_extras(ps.take(i as int)),
        decreases pieces.len() - i,
    {
        let piece = string_from_chars(&pieces[i]);
        let t = trim(piece.as_str());
        let low = to_lowercase(t.as_str());
        assert(ps.take(i + 1).drop_last() =~= ps.take(i as int));
        assert(ps.take(i + 1).last() == pieces@[i as int]@);
        if !low.as_str().is_empty() {
            let ghost before = r.deep_view();
            r.push(low);
            assert(r.deep_view() =~= before.push(lowercase(trimmed(pieces@[i as int]@))));
        }
        i = i + 1;
    }
    assert(ps.take(pieces.len() as int) =~= ps);
    r
}

} // verus!
