//! Character-level text utilities: equality, substring matching, splitting
//! and trimming, each specified over the `Seq<char>` view of a `&str`.

use vstd::prelude::*;

verus! {

/// True when `sep` occurs in `s` starting at position `i`.
pub open spec fn match_at(s: Seq<char>, sep: Seq<char>, i: int) -> bool {
    &&& 0 <= i
    &&& i + sep.len() <= s.len()
    &&& s.subrange(i, i + sep.len() as int) == sep
}

/// The pieces of `s` between non-overlapping occurrences of `sep`, leftmost
/// occurrence first, exactly as `str::split` produces them.  Always at least
/// one piece; `sep` is assumed non-empty.
pub open spec fn spec_split(s: Seq<char>, sep: Seq<char>) -> Seq<Seq<char>>
    recommends
        sep.len() > 0,
    decreases s.len(),
{
    if sep.len() > 0 && match_at(s, sep, 0) {
        seq![Seq::<char>::empty()] + spec_split(s.skip(sep.len() as int), sep)
    } else if s.len() > 0 {
        let rest = spec_split(s.drop_first(), sep);
        seq![seq![s[0]] + rest[0]] + rest.drop_first()
    } else {
        seq![s]
    }
}

/// The text before and after the first occurrence of `sep` in `s`, as
/// `str::split_once` produces it; absent when `sep` does not occur.
pub open spec fn spec_split_once(s: Seq<char>, sep: Seq<char>) -> Option<(Seq<char>, Seq<char>)>
    recommends
        sep.len() > 0,
    decreases s.len(),
{
    if sep.len() > 0 && match_at(s, sep, 0) {
        Some((Seq::<char>::empty(), s.skip(sep.len() as int)))
    } else if s.len() > 0 {
        match spec_split_once(s.drop_first(), sep) {
            Some((a, b)) => Some((seq![s[0]] + a, b)),
            None => None,
        }
    } else {
        None
    }
}

pub proof fn lemma_split_len(s: Seq<char>, sep: Seq<char>)
    ensures
        spec_split(s, sep).len() >= 1,
    decreases s.len(),
{
    if sep.len() > 0 && match_at(s, sep, 0) {
    } else if s.len() > 0 {
        lemma_split_len(s.drop_first(), sep);
    }
}

/// An occurrence of `sep` inside a suffix of `s` is an occurrence in `s`.
pub proof fn lemma_match_shift(s: Seq<char>, sep: Seq<char>, k: int, j: int)
    requires
        0 <= k <= s.len(),
        0 <= j,
    ensures
        match_at(s.skip(k), sep, j) <==> match_at(s, sep, k + j),
{
    if j + sep.len() <= s.skip(k).len() {
        assert(s.skip(k).subrange(j, j + sep.len() as int) =~= s.subrange(
            k + j,
            k + j + sep.len() as int,
        ));
    }
}

/// Splitting a string in which `sep` never occurs yields the string itself.
pub proof fn lemma_split_no_match(s: Seq<char>, sep: Seq<char>)
    requires
        sep.len() > 0,
        forall|i: int| 0 <= i ==> !match_at(s, sep, i),
    ensures
        spec_split(s, sep) =~= seq![s],
        spec_split_once(s, sep) is None,
    decreases s.len(),
{
    assert(!match_at(s, sep, 0));
    if s.len() > 0 {
        assert forall|i: int| 0 <= i implies !match_at(s.drop_first(), sep, i) by {
            lemma_match_shift(s, sep, 1, i);
        }
        lemma_split_no_match(s.drop_first(), sep);
        let rest = spec_split(s.drop_first(), sep);
        assert(rest == seq![s.drop_first()]);
        assert(seq![s[0]] + rest[0] =~= s);
        assert(rest.drop_first() =~= Seq::<Seq<char>>::empty());
        assert(spec_split(s, sep) =~= seq![s]);
    }
}

/// Splitting at the first occurrence of `sep`: everything before it is the
/// first piece, and the split of everything after it gives the rest.
pub proof fn lemma_split_first_match(s: Seq<char>, sep: Seq<char>, j: int)
    requires
        sep.len() > 0,
        match_at(s, sep, j),
        forall|i: int| 0 <= i < j ==> !match_at(s, sep, i),
    ensures
        spec_split(s, sep) == seq![s.take(j)] + spec_split(s.skip(j + sep.len()), sep),
        spec_split_once(s, sep) == Some((s.take(j), s.skip(j + sep.len()))),
    decreases j,
{
    if j == 0 {
        assert(s.take(0) =~= Seq::<char>::empty());
        assert(s.skip(sep.len() as int) == s.skip(j + sep.len()));
    } else {
        assert(!match_at(s, sep, 0));
        assert(s.len() > 0);
        let d = s.drop_first();
        assert forall|i: int| 0 <= i < j - 1 implies !match_at(d, sep, i) by {
            lemma_match_shift(s, sep, 1, i);
        }
        lemma_match_shift(s, sep, 1, j - 1);
        lemma_split_first_match(d, sep, j - 1);
        let rest = spec_split(d, sep);
        assert(rest[0] == d.take(j - 1));
        assert(seq![s[0]] + d.take(j - 1) =~= s.take(j));
        assert(d.skip(j - 1 + sep.len()) =~= s.skip(j + sep.len()));
        assert(rest.drop_first() == spec_split(d.skip(j - 1 + sep.len()), sep));
        assert(spec_split(s, sep) =~= seq![s.take(j)] + spec_split(s.skip(j + sep.len()), sep));
        assert(seq![s[0]] + d.take(j - 1) == s.take(j));
    }
}

/// Exact character-for-character equality of two string slices.
pub fn str_eq(a: &str, b: &str) -> (r: bool)
    ensures
        r == (a@ == b@),
{
    let an = a.unicode_len();
    let bn = b.unicode_len();
    if an != bn {
        return false;
    }
    let mut i: usize = 0;
    while i < an
        invariant
            0 <= i <= an,
            an == a@.len(),
            an == b@.len(),
            forall|j: int| 0 <= j < i ==> a@[j] == b@[j],
        decreases an - i,
    {
        if a.get_char(i) != b.get_char(i) {
            return false;
        }
        i = i + 1;
    }
    proof {
        assert(a@ =~= b@);
    }
    true
}

/// Whether `sep` occurs in `s` starting at character position `i`.
pub fn match_at_exec(s: &str, sep: &str, i: usize) -> (r: bool)
    requires
        i <= s@.len(),
    ensures
        r == match_at(s@, sep@, i as int),
{
    let n = s.unicode_len();
    let m = sep.unicode_len();
    if m > n - i {
        return false;
    }
    let mut k: usize = 0;
    while k < m
        invariant
            0 <= k <= m,
            i + m <= n,
            n == s@.len(),
            m == sep@.len(),
            forall|j: int| 0 <= j < k ==> s@[i + j] == sep@[j],
        decreases m - k,
    {
        if s.get_char(i + k) != sep.get_char(k) {
            proof {
                assert(s@.subrange(i as int, i + m) != sep@) by {
                    if s@.subrange(i as int, i + m) == sep@ {
                        assert(s@.subrange(i as int, i + m)[k as int] == s@[i + k]);
                    }
                }
            }
            return false;
        }
        k = k + 1;
    }
    proof {
        assert(s@.subrange(i as int, i + m) =~= sep@);
    }
    true
}

/// The pieces of `s` between occurrences of `sep`, in order, as `str::split`.
pub fn split_str<'a>(s: &'a str, sep: &str) -> (r: Vec<&'a str>)
    requires
        sep@.len() >= 1,
    ensures
        r@.map_values(|t: &str| t@) == spec_split(s@, sep@),
{
    let n = s.unicode_len();
    let m = sep.unicode_len();
    let mut out: Vec<&'a str> = Vec::new();
    if m > n {
        proof {
            assert forall|i: int| 0 <= i implies !match_at(s@, sep@, i) by {}
            lemma_split_no_match(s@, sep@);
        }
        out.push(s);
        proof {
            assert(out@.map_values(|t: &str| t@) =~= spec_split(s@, sep@));
        }
        return out;
    }
    let mut start: usize = 0;
    let mut i: usize = 0;
    proof {
        assert(s@.skip(0) =~= s@);
        assert(out@.map_values(|t: &str| t@) + spec_split(s@, sep@) =~= spec_split(s@, sep@));
    }
    while i <= n - m
        invariant
            0 <= start <= i <= n,
            m >= 1,
            m <= n,
            n == s@.len(),
            m == sep@.len(),
            spec_split(s@, sep@) == out@.map_values(|t: &str| t@) + spec_split(
                s@.skip(start as int),
                sep@,
            ),
            forall|j: int| 0 <= j < i - start ==> !match_at(s@.skip(start as int), sep@, j),
        decreases n - i,
    {
        if match_at_exec(s, sep, i) {
            let piece = s.substring_char(start, i);
            proof {
                lemma_match_shift(s@, sep@, start as int, i - start);
                lemma_split_first_match(s@.skip(start as int), sep@, i - start);
                assert(s@.skip(start as int).take(i - start) =~= piece@);
                assert(s@.skip(start as int).skip(i - start + m) =~= s@.skip(i + m));
                assert((out@.push(piece)).map_values(|t: &str| t@) =~= out@.map_values(
                    |t: &str| t@,
                ) + seq![piece@]);
                assert(out@.map_values(|t: &str| t@) + (seq![piece@] + spec_split(
                    s@.skip(i + m),
                    sep@,
                )) =~= (out@.map_values(|t: &str| t@) + seq![piece@]) + spec_split(
                    s@.skip(i + m),
                    sep@,
                ));
            }
            out.push(piece);
            start = i + m;
            i = start;
        } else {
            proof {
                lemma_match_shift(s@, sep@, start as int, i - start);
            }
            i = i + 1;
        }
    }
    proof {
        assert forall|j: int| 0 <= j implies !match_at(s@.skip(start as int), sep@, j) by {
            if j < i - start {
            } else {
                assert(j + m > s@.skip(start as int).len());
            }
        }
        lemma_split_no_match(s@.skip(start as int), sep@);
    }
    let piece = s.substring_char(start, n);
    proof {
        assert(piece@ =~= s@.skip(start as int));
    }
    out.push(piece);
    proof {
        assert(out@.map_values(|t: &str| t@) =~= spec_split(s@, sep@));
    }
    out
}

/// The text before and after the first occurrence of `sep` in `s`, as
/// `str::split_once`.
pub fn split_once_str<'a>(s: &'a str, sep: &str) -> (r: Option<(&'a str, &'a str)>)
    requires
        sep@.len() >= 1,
    ensures
        match r {
            Some((a, b)) => spec_split_once(s@, sep@) == Some((a@, b@)),
            None => spec_split_once(s@, sep@) is None,
        },
{
    let n = s.unicode_len();
    let m = sep.unicode_len();
    if m > n {
        proof {
            lemma_split_no_match(s@, sep@);
        }
        return None;
    }
    let mut i: usize = 0;
    while i <= n - m
        invariant
            0 <= i <= n,
            m >= 1,
            m <= n,
            n == s@.len(),
            m == sep@.len(),
            forall|j: int| 0 <= j < i ==> !match_at(s@, sep@, j),
        decreases n - i,
    {
        if match_at_exec(s, sep, i) {
            let a = s.substring_char(0, i);
            let b = s.substring_char(i + m, n);
            proof {
                lemma_split_first_match(s@, sep@, i as int);
                assert(a@ =~= s@.take(i as int));
                assert(b@ =~= s@.skip(i + m));
            }
            return Some((a, b));
        }
        i = i + 1;
    }
    proof {
        assert forall|j: int| 0 <= j implies !match_at(s@, sep@, j) by {
            if j >= i {
                assert(j + m > s@.len());
            }
        }
        lemma_split_no_match(s@, sep@);
    }
    None
}

/// A whitespace character: the Unicode `White_Space` set, as `char::is_whitespace`
/// recognizes it.
pub open spec fn is_space(c: char) -> bool {
    ||| c == ' '
    ||| '\t' <= c && c <= '\r'
    ||| c == '\u{85}'
    ||| c == '\u{a0}'
    ||| c == '\u{1680}'
    ||| '\u{2000}' <= c && c <= '\u{200a}'
    ||| c == '\u{2028}'
    ||| c == '\u{2029}'
    ||| c == '\u{202f}'
    ||| c == '\u{205f}'
    ||| c == '\u{3000}'
}

/// Whether `c` is whitespace, matching `is_space`.
pub fn is_space_char(c: char) -> (r: bool)
    ensures
        r == is_space(c),
{
    c == ' ' || (c >= '\t' && c <= '\r') || c == '\u{85}' || c == '\u{a0}' || c == '\u{1680}' || (
    c >= '\u{2000}' && c <= '\u{200a}') || c == '\u{2028}' || c == '\u{2029}' || c == '\u{202f}'
        || c == '\u{205f}' || c == '\u{3000}'
}

/// `s` with leading and trailing whitespace removed.
pub open spec fn spec_trim(s: Seq<char>) -> Seq<char>
    decreases s.len(),
{
    if s.len() > 0 && is_space(s[0]) {
        spec_trim(s.drop_first())
    } else if s.len() > 0 && is_space(s.last()) {
        spec_trim(s.drop_last())
    } else {
        s
    }
}

/// A parenthesis character, stripped from workspace display names.
pub open spec fn is_paren(c: char) -> bool {
    c == '(' || c == ')'
}

/// `s` with leading and trailing parenthesis characters removed.
pub open spec fn spec_strip_parens(s: Seq<char>) -> Seq<char>
    decreases s.len(),
{
    if s.len() > 0 && is_paren(s[0]) {
        spec_strip_parens(s.drop_first())
    } else if s.len() > 0 && is_paren(s.last()) {
        spec_strip_parens(s.drop_last())
    } else {
        s
    }
}

/// `str::trim`, over ASCII whitespace.
pub fn trim_str<'a>(s: &'a str) -> (r: &'a str)
    ensures
        r@ == spec_trim(s@),
{
    let n = s.unicode_len();
    let mut a: usize = 0;
    proof {
        assert(s@.subrange(0, n as int) =~= s@);
    }
    while a < n
        invariant
            0 <= a <= n,
            n == s@.len(),
            spec_trim(s@) == spec_trim(s@.subrange(a as int, n as int)),
        ensures
            0 <= a <= n,
            n == s@.len(),
            spec_trim(s@) == spec_trim(s@.subrange(a as int, n as int)),
            a < n ==> !is_space(s@[a as int]),
        decreases n - a,
    {
        if !is_space_char(s.get_char(a)) {
            break ;
        }
        proof {
            assert(s@.subrange(a as int, n as int).drop_first() =~= s@.subrange(
                a + 1,
                n as int,
            ));
        }
        a = a + 1;
    }
    let mut b: usize = n;
    while b > a
        invariant
            0 <= a <= b <= n,
            n == s@.len(),
            spec_trim(s@) == spec_trim(s@.subrange(a as int, b as int)),
            a < b ==> !is_space(s@[a as int]),
        ensures
            0 <= a <= b <= n,
            n == s@.len(),
            spec_trim(s@) == spec_trim(s@.subrange(a as int, b as int)),
            a < b ==> !is_space(s@[a as int]),
            a < b ==> !is_space(s@[b - 1]),
        decreases b,
    {
        if !is_space_char(s.get_char(b - 1)) {
            break ;
        }
        proof {
            assert(s@.subrange(a as int, b as int).drop_last() =~= s@.subrange(
                a as int,
                b - 1,
            ));
        }
        b = b - 1;
    }
    let r = s.substring_char(a, b);
    proof {
        assert(r@ =~= s@.subrange(a as int, b as int));
    }
    r
}

/// `str::trim_matches` with a parenthesis predicate, as used on workspace
/// display names such as `"(special:minimized)"`.
pub fn strip_parens_str<'a>(s: &'a str) -> (r: &'a str)
    ensures
        r@ == spec_strip_parens(s@),
{
    let n = s.unicode_len();
    let mut a: usize = 0;
    proof {
        assert(s@.subrange(0, n as int) =~= s@);
    }
    while a < n
        invariant
            0 <= a <= n,
            n == s@.len(),
            spec_strip_parens(s@) == spec_strip_parens(s@.subrange(a as int, n as int)),
        ensures
            0 <= a <= n,
            n == s@.len(),
            spec_strip_parens(s@) == spec_strip_parens(s@.subrange(a as int, n as int)),
            a < n ==> !is_paren(s@[a as int]),
        decreases n - a,
    {
        let c = s.get_char(a);
        if !(c == '(' || c == ')') {
            break ;
        }
        proof {
            assert(s@.subrange(a as int, n as int).drop_first() =~= s@.subrange(
                a + 1,
                n as int,
            ));
        }
        a = a + 1;
    }
    let mut b: usize = n;
    while b > a
        invariant
            0 <= a <= b <= n,
            n == s@.len(),
            spec_strip_parens(s@) == spec_strip_parens(s@.subrange(a as int, b as int)),
            a < b ==> !is_paren(s@[a as int]),
        ensures
            0 <= a <= b <= n,
            n == s@.len(),
            spec_strip_parens(s@) == spec_strip_parens(s@.subrange(a as int, b as int)),
            a < b ==> !is_paren(s@[a as int]),
            a < b ==> !is_paren(s@[b - 1]),
        decreases b,
    {
        let c = s.get_char(b - 1);
        if !(c == '(' || c == ')') {
            break ;
        }
        proof {
            assert(s@.subrange(a as int, b as int).drop_last() =~= s@.subrange(
                a as int,
                b - 1,
            ));
        }
        b = b - 1;
    }
    let r = s.substring_char(a, b);
    proof {
        assert(r@ =~= s@.subrange(a as int, b as int));
    }
    r
}

} // verus!
