//! Character-level helpers shared by the grammars: whitespace, letters, trimming,
//! searching and case-insensitive comparison, all stated over `Seq<char>`.
use vstd::prelude::*;

verus! {

/// Whether `c` has the Unicode Alphabetic property; used for characters outside ASCII.
pub uninterp spec fn unicode_alphabetic(c: char) -> bool;

/// Whether `c` is alphabetic or numeric in Unicode; used for characters outside ASCII.
pub uninterp spec fn unicode_alphanumeric(c: char) -> bool;

/// Relies on `char::is_alphanumeric`: whether `c` is Alphabetic or has a numeric
/// general category.
#[verifier::external_body]
fn non_ascii_is_alphanumeric(c: char) -> (r: bool)
    ensures
        r == unicode_alphanumeric(c),
{
    c.is_alphanumeric()
}

/// Relies on `char::is_alphabetic`: whether `c` has the Alphabetic property.
#[verifier::external_body]
fn non_ascii_is_alphabetic(c: char) -> (r: bool)
    ensures
        r == unicode_alphabetic(c),
{
    c.is_alphabetic()
}

/// Relies on `str::chars`, collected: the characters of `s` in order.
#[verifier::external_body]
pub(crate) fn chars_of(s: &str) -> (r: Vec<char>)
    ensures
        r@ == s@,
{
    s.chars().collect()
}

/// Relies on `String: FromIterator<&char>`: the string made of `cs` in order.
#[verifier::external_body]
pub(crate) fn string_of(cs: &[char]) -> (r: String)
    ensures
        r@ == cs@,
{
    cs.iter().collect()
}

pub open spec fn is_ascii_char(c: char) -> bool {
    (c as u32) < 128
}

/// White space: the characters with the Unicode White_Space property.
pub open spec fn is_ws(c: char) -> bool {
    let u = c as u32;
    u == 32 || (9 <= u && u <= 13) || u == 0x85 || u == 0xa0 || u == 0x1680 || (0x2000 <= u && u
        <= 0x200a) || u == 0x2028 || u == 0x2029 || u == 0x202f || u == 0x205f || u == 0x3000
}

pub open spec fn is_ascii_upper(c: char) -> bool {
    65 <= (c as u32) && (c as u32) <= 90
}

pub open spec fn is_ascii_lower(c: char) -> bool {
    97 <= (c as u32) && (c as u32) <= 122
}

/// A letter: among ASCII, `A`..`Z` and `a`..`z`.
pub open spec fn is_alpha(c: char) -> bool {
    if is_ascii_char(c) {
        is_ascii_upper(c) || is_ascii_lower(c)
    } else {
        unicode_alphabetic(c)
    }
}

pub fn is_whitespace(c: char) -> (r: bool)
    ensures
        r == is_ws(c),
{
    let u = c as u32;
    u == 32 || (9 <= u && u <= 13) || u == 0x85 || u == 0xa0 || u == 0x1680 || (0x2000 <= u && u
        <= 0x200a) || u == 0x2028 || u == 0x2029 || u == 0x202f || u == 0x205f || u == 0x3000
}

pub fn is_alphabetic(c: char) -> (r: bool)
    ensures
        r == is_alpha(c),
{
    if (c as u32) < 128 {
        (65 <= (c as u32) && (c as u32) <= 90) || (97 <= (c as u32) && (c as u32) <= 122)
    } else {
        non_ascii_is_alphabetic(c)
    }
}

/// `s` without its leading white space.
pub open spec fn trim_start(s: Seq<char>) -> Seq<char>
    decreases s.len(),
{
    if s.len() > 0 && is_ws(s[0]) {
        trim_start(s.drop_first())
    } else {
        s
    }
}

/// `s` without its trailing white space.
pub open spec fn trim_end(s: Seq<char>) -> Seq<char>
    decreases s.len(),
{
    if s.len() > 0 && is_ws(s.last()) {
        trim_end(s.drop_last())
    } else {
        s
    }
}

/// `s` without white space at either end.
pub open spec fn trim(s: Seq<char>) -> Seq<char> {
    trim_end(trim_start(s))
}

pub fn trim_chars(t: &[char]) -> (r: &[char])
    ensures
        r@ == trim(t@),
{
    let n = t.len();
    let mut i: usize = 0;
    assert(t@.subrange(0, n as int) =~= t@);
    while i < n && is_whitespace(t[i])
        invariant
            i <= n,
            n == t@.len(),
            trim_start(t@.subrange(i as int, n as int)) == trim_start(t@),
        decreases n - i,
    {
        let ghost rest = t@.subrange(i as int, n as int);
        assert(rest.drop_first() =~= t@.subrange(i + 1, n as int));
        i = i + 1;
    }
    assert(trim_start(t@.subrange(i as int, n as int)) == t@.subrange(i as int, n as int));
    let mut j: usize = n;
    while j > i && is_whitespace(t[j - 1])
        invariant
            i <= j <= n,
            n == t@.len(),
            trim_end(t@.subrange(i as int, j as int)) == trim(t@),
        decreases j,
    {
        let ghost part = t@.subrange(i as int, j as int);
        assert(part.drop_last() =~= t@.subrange(i as int, j - 1));
        j = j - 1;
    }
    &t[i..j]
}

/// The first position of `c` in `s`, if any.
pub open spec fn find(s: Seq<char>, c: char) -> Option<int> {
    if exists|i: int| 0 <= i < s.len() && s[i] == c {
        Some(choose|i: int| 0 <= i < s.len() && s[i] == c && forall|k: int| 0 <= k < i ==> s[k] != c)
    } else {
        None
    }
}

pub fn find_char(t: &[char], c: char) -> (r: Option<usize>)
    ensures
        match r {
            Some(i) => i < t@.len() && t@[i as int] == c && forall|k: int| 0 <= k < i ==> t@[k] != c,
            None => forall|k: int| 0 <= k < t@.len() ==> t@[k] != c,
        },
        r matches Some(i) ==> find(t@, c) == Some(i as int),
        r is None <==> find(t@, c) is None,
{
    let mut i: usize = 0;
    while i < t.len()
        invariant
            i <= t@.len(),
            forall|k: int| 0 <= k < i ==> t@[k] != c,
        decreases t@.len() - i,
    {
        if t[i] == c {
            proof {
                let w = choose|w: int| 0 <= w < t@.len() && t@[w] == c && forall|k: int| 0 <= k < w ==> t@[k] != c;
                assert(w == i as int) by {
                    if w < i {
                    } else if w > i {
                        assert(t@[i as int] == c);
                    }
                }
            }
            return Some(i);
        }
        i = i + 1;
    }
    None
}

/// `c` is `l`, or `l` is a lower-case ASCII letter and `c` its upper-case form.
pub open spec fn char_ci_eq(c: char, l: char) -> bool {
    c == l || (is_ascii_lower(l) && (c as u32) + 32 == (l as u32))
}

/// `s` equals the lower-case `t` up to the case of ASCII letters.
pub open spec fn ci_eq(s: Seq<char>, t: Seq<char>) -> bool {
    s.len() == t.len() && forall|i: int| 0 <= i < s.len() ==> char_ci_eq(#[trigger] s[i], t[i])
}

pub fn ci_eq_str(s: &[char], t: &str) -> (r: bool)
    ensures
        r == ci_eq(s@, t@),
{
    let tc = chars_of(t);
    if s.len() != tc.len() {
        return false;
    }
    let mut i: usize = 0;
    while i < s.len()
        invariant
            i <= s@.len(),
            s@.len() == tc@.len(),
            tc@ == t@,
            forall|k: int| 0 <= k < i ==> char_ci_eq(#[trigger] s@[k], tc@[k]),
        decreases s@.len() - i,
    {
        let ch = s[i];
        let lc = tc[i];
        let c: u32 = ch as u32;
        let l: u32 = lc as u32;
        let ok = ch == lc || (97 <= l && l <= 122 && c == l - 32);
        if !ok {
            return false;
        }
        assert(char_ci_eq(s@[i as int], tc@[i as int]));
        i = i + 1;
    }
    true
}

/// A letter or a digit: among ASCII, `A`..`Z`, `a`..`z` and `0`..`9`.
pub open spec fn is_alnum(c: char) -> bool {
    if is_ascii_char(c) {
        is_ascii_upper(c) || is_ascii_lower(c) || (48 <= (c as u32) && (c as u32) <= 57)
    } else {
        unicode_alphanumeric(c)
    }
}

pub fn is_alphanumeric(c: char) -> (r: bool)
    ensures
        r == is_alnum(c),
{
    let u = c as u32;
    if u < 128 {
        (65 <= u && u <= 90) || (97 <= u && u <= 122) || (48 <= u && u <= 57)
    } else {
        non_ascii_is_alphanumeric(c)
    }
}

/// Whether `s` begins with `p`.
pub fn starts_with(s: &[char], p: &[char]) -> (r: bool)
    ensures
        r == (p@.len() <= s@.len() && s@.subrange(0, p@.len() as int) == p@),
{
    if p.len() > s.len() {
        return false;
    }
    let mut i: usize = 0;
    while i < p.len()
        invariant
            i <= p@.len() <= s@.len(),
            forall|k: int| 0 <= k < i ==> s@[k] == p@[k],
        decreases p@.len() - i,
    {
        if s[i] != p[i] {
            assert(s@.subrange(0, p@.len() as int)[i as int] != p@[i as int]);
            return false;
        }
        i = i + 1;
    }
    assert(s@.subrange(0, p@.len() as int) =~= p@);
    true
}

pub open spec fn all_ws(s: Seq<char>) -> bool {
    forall|i: int| 0 <= i < s.len() ==> is_ws(#[trigger] s[i])
}

/// Trimming a text that has white space only around a core whose ends are not
/// white space gives the core.
pub proof fn lemma_trim_padded(w1: Seq<char>, x: Seq<char>, w2: Seq<char>)
    requires
        all_ws(w1),
        all_ws(w2),
        x.len() > 0 ==> !is_ws(x[0]) && !is_ws(x.last()),
    ensures
        trim(w1 + x + w2) == x,
    decreases w1.len() + w2.len(),
{
    if w1.len() > 0 {
        let s = w1 + x + w2;
        assert(s[0] == w1[0]);
        assert(s.drop_first() =~= w1.drop_first() + x + w2);
        assert(all_ws(w1.drop_first())) by {
            assert forall|i: int| 0 <= i < w1.drop_first().len() implies is_ws(#[trigger] w1.drop_first()[i]) by {
                assert(w1.drop_first()[i] == w1[i + 1]);
            }
        }
        lemma_trim_padded(w1.drop_first(), x, w2);
    } else if x.len() == 0 {
        assert(w1 + x + w2 =~= w2);
        lemma_trim_start_all_ws(w2);
    } else if w2.len() > 0 {
        let s = w1 + x + w2;
        assert(s =~= x + w2);
        lemma_trim_start_stops(x + w2);
        assert(trim(s) == trim_end(x + w2));
        assert((x + w2).drop_last() =~= x + w2.drop_last());
        assert(all_ws(w2.drop_last())) by {
            assert forall|i: int| 0 <= i < w2.drop_last().len() implies is_ws(#[trigger] w2.drop_last()[i]) by {
                assert(w2.drop_last()[i] == w2[i]);
            }
        }
        assert((x + w2).last() == w2.last());
        lemma_trim_padded(w1, x, w2.drop_last());
        assert(w1 + x + w2.drop_last() =~= x + w2.drop_last());
        lemma_trim_start_stops(x + w2.drop_last());
    } else {
        assert(w1 + x + w2 =~= x);
        if x.len() > 0 {
            assert(trim_start(x) == x);
        }
    }
}

pub proof fn lemma_trim_start_all_ws(s: Seq<char>)
    requires
        all_ws(s),
    ensures
        trim_start(s) == Seq::<char>::empty(),
    decreases s.len(),
{
    if s.len() > 0 {
        assert(is_ws(s[0]));
        assert(all_ws(s.drop_first())) by {
            assert forall|i: int| 0 <= i < s.drop_first().len() implies is_ws(#[trigger] s.drop_first()[i]) by {
                assert(s.drop_first()[i] == s[i + 1]);
            }
        }
        lemma_trim_start_all_ws(s.drop_first());
    } else {
        assert(s =~= Seq::<char>::empty());
    }
}

proof fn lemma_trim_start_stops(s: Seq<char>)
    requires
        s.len() > 0 ==> !is_ws(s[0]),
    ensures
        trim_start(s) == s,
{
}

/// Leading white space of `z + w`: that of `z`, or, when `z` is all white
/// space, that of `w`.
pub proof fn lemma_trim_start_append(z: Seq<char>, w: Seq<char>)
    ensures
        trim_start(z + w) == (if trim_start(z).len() > 0 {
            trim_start(z) + w
        } else {
            trim_start(w)
        }),
    decreases z.len(),
{
    if z.len() > 0 {
        assert((z + w)[0] == z[0]);
        if is_ws(z[0]) {
            assert((z + w).drop_first() =~= z.drop_first() + w);
            lemma_trim_start_append(z.drop_first(), w);
        }
    } else {
        assert(z + w =~= w);
    }
}

/// Trailing white space added to `z` is trimmed away again.
pub proof fn lemma_trim_end_ws(z: Seq<char>, w: Seq<char>)
    requires
        all_ws(w),
    ensures
        trim_end(z + w) == trim_end(z),
    decreases w.len(),
{
    if w.len() > 0 {
        assert((z + w).last() == w.last());
        assert((z + w).drop_last() =~= z + w.drop_last());
        assert(all_ws(w.drop_last())) by {
            assert forall|i: int| 0 <= i < w.drop_last().len() implies is_ws(#[trigger] w.drop_last()[i]) by {
                assert(w.drop_last()[i] == w[i]);
            }
        }
        lemma_trim_end_ws(z, w.drop_last());
    } else {
        assert(z + w =~= z);
    }
}

/// Trimming ignores trailing white space.
pub proof fn lemma_trim_ws_suffix(z: Seq<char>, w: Seq<char>)
    requires
        all_ws(w),
    ensures
        trim(z + w) == trim(z),
{
    lemma_trim_start_append(z, w);
    if trim_start(z).len() > 0 {
        lemma_trim_end_ws(trim_start(z), w);
    } else {
        lemma_trim_start_all_ws(w);
        assert(trim_start(z) =~= Seq::<char>::empty());
    }
}

} // verus!
