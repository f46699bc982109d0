//! Character-level helpers on strings, and the few calls into `std` string
//! routines that the library relies on.
use vstd::prelude::*;
use vstd::string::StringExecFns;

verus! {

/// What `str::to_lowercase` returns for a string (Unicode `Lowercase` mapping).
pub uninterp spec fn lowercase(s: Seq<char>) -> Seq<char>;

/// What `str::to_uppercase` returns for a string (Unicode `Uppercase` mapping).
pub uninterp spec fn uppercase(s: Seq<char>) -> Seq<char>;


/// The characters of a string, in order.
pub fn chars_of(s: &str) -> (r: Vec<char>)
    ensures
        r@ == s@,
{
    let mut r: Vec<char> = Vec::new();
    for c in it: s.chars()
        invariant
            r@ == it.seq().take(it.index() as int),
            it.seq() == s@,
    {
        r.push(c);
    }
    r
}

/// Appends `t` to `s`.
pub fn push_str(s: &mut String, t: &str)
    ensures
        final(s)@ == old(s)@ + t@,
{
    s.append(t);
}

/// `String::push`: appends one character to `s`.
#[verifier::external_body]
pub(crate) fn push_char(s: &mut String, c: char)
    ensures
        final(s)@ == old(s)@.push(c),
{
    s.push(c)
}

/// `str::to_lowercase`; its result is named by `lowercase`.
#[verifier::external_body]
pub(crate) fn to_lowercase(s: &str) -> (r: String)
    ensures
        r@ == lowercase(s@),
{
    s.to_lowercase()
}

/// `str::to_uppercase`; its result is named by `uppercase`.
#[verifier::external_body]
pub(crate) fn to_uppercase(s: &str) -> (r: String)
    ensures
        r@ == uppercase(s@),
{
    s.to_uppercase()
}

/// Whether a character has the Unicode `White_Space` property, which is what
/// `char::is_whitespace` and `str::trim` go by.
pub open spec fn is_white_space(c: char) -> bool {
    ||| '\u{9}' <= c && c <= '\u{d}'
    ||| c == ' '
    ||| c == '\u{85}'
    ||| c == '\u{a0}'
    ||| c == '\u{1680}'
    ||| '\u{2000}' <= c && c <= '\u{200a}'
    ||| c == '\u{2028}'
    ||| c == '\u{2029}'
    ||| c == '\u{202f}'
    ||| c == '\u{205f}'
    ||| c == '\u{3000}'
}

/// The string without its leading white space.
pub open spec fn trim_start(s: Seq<char>) -> Seq<char>
    decreases s.len(),
{
    if s.len() > 0 && is_white_space(s[0]) {
        trim_start(s.drop_first())
    } else {
        s
    }
}

/// The string without its trailing white space.
pub open spec fn trim_end(s: Seq<char>) -> Seq<char>
    decreases s.len(),
{
    if s.len() > 0 && is_white_space(s.last()) {
        trim_end(s.drop_last())
    } else {
        s
    }
}

/// The string without its leading and trailing white space, as `str::trim` gives it.
pub open spec fn trimmed(s: Seq<char>) -> Seq<char> {
    trim_end(trim_start(s))
}

/// Whether `c` is white space.
pub fn white_space(c: char) -> (r: bool)
    ensures
        r == is_white_space(c),
{
    ('\u{9}' <= c && c <= '\u{d}') || c == ' ' || c == '\u{85}' || c == '\u{a0}' || c == '\u{1680}' || ('\u{2000}'
        <= c && c <= '\u{200a}') || c == '\u{2028}' || c == '\u{2029}' || c == '\u{202f}' || c == '\u{205f}' || c
        == '\u{3000}'
}

/// The string without its leading and trailing white space.
pub fn trim(s: &str) -> (r: String)
    ensures
        r@ == trimmed(s@),
{
    let cs = chars_of(s);
    let ghost d = cs@;
    let mut i: usize = 0;
    assert(d.skip(0) =~= d);
    while i < cs.len() && white_space(cs[i])
        invariant
            i <= cs.len(),
            d == cs@,
            trim_start(d) == trim_start(d.skip(i as int)),
        decreases cs.len() - i,
    {
        assert(d.skip(i as int)[0] == d[i as int]);
        assert(d.skip(i as int).drop_first() =~= d.skip(i + 1));
        i = i + 1;
    }
    if i == cs.len() {
        assert(d.skip(i as int) =~= Seq::<char>::empty());
    }
    assert(trim_start(d) == d.skip(i as int)) by {
        if i < cs.len() {
            assert(d.skip(i as int)[0] == d[i as int]);
        }
    }
    let mut j: usize = cs.len();
    while j > i && white_space(cs[j - 1])
        invariant
            i <= j <= cs.len(),
            d == cs@,
            trim_end(d.subrange(i as int, d.len() as int)) == trim_end(d.subrange(i as int, j as int)),
        decreases j,
    {
        assert(d.subrange(i as int, j as int).last() == d[j - 1]);
        assert(d.subrange(i as int, j as int).drop_last() =~= d.subrange(i as int, j - 1));
        j = j - 1;
    }
    assert(trim_end(d.subrange(i as int, j as int)) == d.subrange(i as int, j as int)) by {
        if j > i {
            assert(d.subrange(i as int, j as int).last() == d[j - 1]);
        }
    }
    assert(d.skip(i as int) =~= d.subrange(i as int, d.len() as int));
    let mut r = String::new();
    let mut k: usize = i;
    while k < j
        invariant
            i <= k <= j,
            j <= cs.len(),
            d == cs@,
            r@ == d.subrange(i as int, k as int),
        decreases j - k,
    {
        push_char(&mut r, cs[k]);
        k = k + 1;
        assert(r@ =~= d.subrange(i as int, k as int));
    }
    r
}

pub open spec fn is_digit(c: char) -> bool {
    '0' <= c && c <= '9'
}

pub open spec fn all_digits(s: Seq<char>) -> bool {
    forall|i: int| 0 <= i < s.len() ==> is_digit(#[trigger] s[i])
}

pub open spec fn digit_value(c: char) -> nat {
    (c as int - '0' as int) as nat
}

/// The number that a string of decimal digits denotes.
pub open spec fn decimal_value(d: Seq<char>) -> nat
    decreases d.len(),
{
    if d.len() == 0 {
        0
    } else {
        decimal_value(d.drop_last()) * 10 + digit_value(d.last())
    }
}

/// A prefix of a string of digits denotes no more than the whole string.
pub proof fn lemma_decimal_prefix_le(d: Seq<char>, j: int)
    requires
        0 <= j <= d.len(),
    ensures
        decimal_value(d.take(j)) <= decimal_value(d),
    decreases d.len(),
{
    if j == d.len() {
        assert(d.take(j) =~= d);
    } else {
        let t = d.drop_last();
        lemma_decimal_prefix_le(t, j);
        assert(t.take(j) =~= d.take(j));
    }
}

/// The number that a string of ASCII digits denotes, as `str::parse::<u64>` reads
/// it: `None` when the string is empty or the number exceeds `u64::MAX`.
pub fn parse_u64(s: &str) -> (r: Option<u64>)
    requires
        all_digits(s@),
    ensures
        r == (if s@.len() > 0 && decimal_value(s@) <= u64::MAX {
            Some(decimal_value(s@) as u64)
        } else {
            None::<u64>
        }),
{
    let cs = chars_of(s);
    if cs.len() == 0 {
        return None;
    }
    let mut v: u64 = 0;
    let mut i: usize = 0;
    assert(cs@.take(0) =~= Seq::<char>::empty());
    while i < cs.len()
        invariant
            i <= cs.len(),
            cs@ == s@,
            all_digits(s@),
            v as nat == decimal_value(cs@.take(i as int)),
        decreases cs.len() - i,
    {
        let c = cs[i];
        assert(is_digit(cs@[i as int]));
        let digit: u64 = (c as u32 - '0' as u32) as u64;
        assert(cs@.take(i + 1).drop_last() =~= cs@.take(i as int));
        assert(decimal_value(cs@.take(i + 1)) == v * 10 + digit);
        let next = match v.checked_mul(10) {
            Some(m) => m.checked_add(digit),
            None => None,
        };
        match next {
            Some(n) => {
                v = n;
            },
            None => {
                proof {
                    lemma_decimal_prefix_le(cs@, i + 1);
                }
                return None;
            },
        }
        i = i + 1;
    }
    assert(cs@.take(cs.len() as int) =~= cs@);
    Some(v)
}

/// Builds a `String` from a sequence of characters.
pub fn string_from_chars(cs: &Vec<char>) -> (r: String)
    ensures
        r@ == cs@,
{
    let mut r = String::new();
    let mut i: usize = 0;
    while i < cs.len()
        invariant
            i <= cs.len(),
            r@ == cs@.take(i as int),
        decreases cs.len() - i,
    {
        push_char(&mut r, cs[i]);
        i = i + 1;
        assert(r@ =~= cs@.take(i as int));
    }
    assert(cs@.take(cs.len() as int) =~= cs@);
    r
}

/// Whether two character sequences are equal.
pub fn chars_equal(a: &Vec<char>, b: &Vec<char>) -> (r: bool)
    ensures
        r == (a@ == b@),
{
    if a.len() != b.len() {
        return false;
    }
    let mut i: usize = 0;
    while i < a.len()
        invariant
            i <= a.len(),
            a.len() == b.len(),
            forall|j: int| 0 <= j < i ==> a@[j] == b@[j],
        decreases a.len() - i,
    {
        if a[i] != b[i] {
            return false;
        }
        i = i + 1;
    }
    assert(a@ =~= b@);
    true
}

/// Whether two strings hold the same characters.
pub fn str_equal(a: &str, b: &str) -> (r: bool)
    ensures
        r == (a@ == b@),
{
    let ca = chars_of(a);
    let cb = chars_of(b);
    chars_equal(&ca, &cb)
}

/// Whether `needle` occurs in `hay` starting at position `at`.
pub open spec fn occurs_at(hay: Seq<char>, needle: Seq<char>, at: int) -> bool {
    0 <= at && at + needle.len() <= hay.len() && hay.subrange(at, at + needle.len()) == needle
}

/// Whether `needle` occurs anywhere in `hay` (`str::contains` with a string pattern).
pub open spec fn contains_text(hay: Seq<char>, needle: Seq<char>) -> bool {
    exists|at: int| occurs_at(hay, needle, at)
}

/// Whether `needle` occurs in `hay`.
pub fn str_contains(hay: &str, needle: &str) -> (r: bool)
    ensures
        r == contains_text(hay@, needle@),
{
    let h = chars_of(hay);
    let n = chars_of(needle);
    if n.len() > h.len() {
        assert forall|at: int| !occurs_at(hay@, needle@, at) by {}
        return false;
    }
    if n.len() == 0 {
        assert(hay@.subrange(0, 0) =~= needle@);
        assert(occurs_at(hay@, needle@, 0));
        return true;
    }
    let end = h.len() - n.len() + 1;
    let mut at: usize = 0;
    while at < end
        invariant
            h@ == hay@,
            n@ == needle@,
            0 < n.len() <= h.len(),
            end == h.len() - n.len() + 1,
            at <= end,
            forall|k: int| 0 <= k < at ==> !occurs_at(hay@, needle@, k),
        decreases end - at,
    {
        let mut j: usize = 0;
        let mut same = true;
        while j < n.len()
            invariant
                h@ == hay@,
                n@ == needle@,
                at + n.len() <= h.len(),
                j <= n.len(),
                same == (forall|m: int| 0 <= m < j ==> h@[at + m] == n@[m]),
            decreases n.len() - j,
        {
            if h[at + j] != n[j] {
                same = false;
            }
            j = j + 1;
        }
        if same {
            assert(hay@.subrange(at as int, at + needle@.len()) =~= needle@);
            assert(occurs_at(hay@, needle@, at as int));
            return true;
        }
        assert(!occurs_at(hay@, needle@, at as int)) by {
            if occurs_at(hay@, needle@, at as int) {
                let k = choose|m: int| 0 <= m < n.len() && h@[at + m] != n@[m];
                assert(hay@.subrange(at as int, at + needle@.len())[k] == h@[at + k]);
            }
        }
        at = at + 1;
    }
    false
}

/// The decimal digits of a number, most significant first, as `Display` prints it.
pub open spec fn decimal_text(n: nat) -> Seq<char>
    decreases n,
{
    if n < 10 {
        seq![('0' as u8 + n as u8) as char]
    } else {
        decimal_text(n / 10).push(('0' as u8 + (n % 10) as u8) as char)
    }
}

/// Appends the decimal form of `n` to `out`.
pub fn push_decimal(out: &mut String, n: usize)
    ensures
        final(out)@ == old(out)@ + decimal_text(n as nat),
    decreases n,
{
    if n < 10 {
        push_char(out, ((n as u8) + 48u8) as char);
        assert(decimal_text(n as nat) =~= seq![('0' as u8 + n as u8) as char]);
    } else {
        push_decimal(out, n / 10);
        let d: u8 = (n % 10) as u8;
        push_char(out, (d + 48u8) as char);
    }
}

} // verus!
