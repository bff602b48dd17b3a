//! Character-level scanning shared by the credential grammar.

use vstd::prelude::*;

verus! {

/// Whether `c` carries the Unicode property `White_Space`.
pub open spec fn is_space(c: char) -> bool {
    ||| '\u{9}' <= c <= '\u{d}'
    ||| c == ' '
    ||| c == '\u{85}'
    ||| c == '\u{a0}'
    ||| c == '\u{1680}'
    ||| '\u{2000}' <= c <= '\u{200a}'
    ||| c == '\u{2028}'
    ||| c == '\u{2029}'
    ||| c == '\u{202f}'
    ||| c == '\u{205f}'
    ||| c == '\u{3000}'
}

/// `s` without its leading white space.
pub open spec fn trim_start(s: Seq<char>) -> Seq<char>
    decreases s.len(),
{
    if s.len() > 0 && is_space(s[0]) {
        trim_start(s.drop_first())
    } else {
        s
    }
}

/// `s` without its trailing white space.
pub open spec fn trim_end(s: Seq<char>) -> Seq<char>
    decreases s.len(),
{
    if s.len() > 0 && is_space(s.last()) {
        trim_end(s.drop_last())
    } else {
        s
    }
}

/// `s` without its leading and trailing white space.
pub open spec fn trimmed(s: Seq<char>) -> Seq<char> {
    trim_end(trim_start(s))
}

/// Whether `c` carries the Unicode property `White_Space`.
pub fn is_space_char(c: char) -> (r: bool)
    ensures
        r == is_space(c),
{
    ('\u{9}' <= c && c <= '\u{d}') || c == ' ' || c == '\u{85}' || c == '\u{a0}' || c == '\u{1680}'
        || ('\u{2000}' <= c && c <= '\u{200a}') || c == '\u{2028}' || c == '\u{2029}' || c
        == '\u{202f}' || c == '\u{205f}' || c == '\u{3000}'
}

/// The characters of `s`, in order.
pub fn chars_of(s: &str) -> (v: Vec<char>)
    ensures
        v@ == s@,
{
    let mut v: Vec<char> = Vec::new();
    for c in it: s.chars()
        invariant
            it.seq() == s@,
            v@ == s@.take(it.index()),
    {
        v.push(c);
    }
    v
}

/// Trims the window `lo..hi` of `v`: the bounds of what is left of it once
/// the white space at both of its ends is gone.
pub fn trim_window(v: &Vec<char>, lo: usize, hi: usize) -> (r: (usize, usize))
    requires
        lo <= hi <= v.len(),
    ensures
        lo <= r.0 <= r.1 <= hi,
        v@.subrange(r.0 as int, r.1 as int) == trimmed(v@.subrange(lo as int, hi as int)),
{
    let mut a: usize = lo;
    while a < hi && is_space_char(v[a])
        invariant
            lo <= a <= hi <= v.len(),
            trim_start(v@.subrange(lo as int, hi as int)) == trim_start(
                v@.subrange(a as int, hi as int),
            ),
        decreases hi - a,
    {
        assert(v@.subrange(a as int, hi as int).drop_first() == v@.subrange(a + 1, hi as int));
        a += 1;
    }
    let mut b: usize = hi;
    while b > a && is_space_char(v[b - 1])
        invariant
            a <= b <= hi <= v.len(),
            trim_end(v@.subrange(a as int, hi as int)) == trim_end(v@.subrange(a as int, b as int)),
        decreases b - a,
    {
        assert(v@.subrange(a as int, b as int).drop_last() == v@.subrange(a as int, b - 1));
        b -= 1;
    }
    (a, b)
}

/// The scheme word that may stand before a token, with its blank.
pub open spec fn scheme() -> Seq<char> {
    seq!['B', 'a', 's', 'i', 'c', ' ']
}

/// `s` without the scheme word it starts with, if it starts with one. One
/// word is taken off, not more.
pub open spec fn strip_once(s: Seq<char>) -> Seq<char> {
    if scheme().is_prefix_of(s) {
        s.skip(6)
    } else {
        s
    }
}

/// How often `c` occurs in `s`.
pub open spec fn count(s: Seq<char>, c: char) -> nat
    decreases s.len(),
{
    if s.len() == 0 {
        0
    } else if s.last() == c {
        count(s.drop_last(), c) + 1
    } else {
        count(s.drop_last(), c)
    }
}

/// The index at which `c` first occurs in `s`; the length of `s` where it
/// does not occur.
pub open spec fn position(s: Seq<char>, c: char) -> int
    decreases s.len(),
{
    if s.len() == 0 || s[0] == c {
        0
    } else {
        1 + position(s.drop_first(), c)
    }
}

/// `position` is where `c` stands with no `c` before it.
pub proof fn lemma_position(s: Seq<char>, c: char, p: int)
    requires
        0 <= p <= s.len(),
        forall|j: int| 0 <= j < p ==> s[j] != c,
        p < s.len() ==> s[p] == c,
    ensures
        position(s, c) == p,
    decreases s.len(),
{
    if p > 0 {
        lemma_position(s.drop_first(), c, p - 1);
    }
}

/// Whether the window `lo..hi` of `v` starts with the scheme word.
fn at_scheme(v: &Vec<char>, lo: usize, hi: usize) -> (r: bool)
    requires
        lo <= hi <= v.len(),
    ensures
        r == scheme().is_prefix_of(v@.subrange(lo as int, hi as int)),
{
    let r = hi - lo >= 6 && v[lo] == 'B' && v[lo + 1] == 'a' && v[lo + 2] == 's' && v[lo + 3] == 'i'
        && v[lo + 4] == 'c' && v[lo + 5] == ' ';
    proof {
        let w = v@.subrange(lo as int, hi as int);
        if hi - lo >= 6 {
            let head = w.subrange(0, 6);
            if r {
                assert(head =~= scheme());
            } else if head == scheme() {
                assert(head[0] == 'B' && head[1] == 'a' && head[2] == 's');
                assert(head[3] == 'i' && head[4] == 'c' && head[5] == ' ');
            }
        }
    }
    r
}

/// Skips the scheme word at the start of the window `lo..hi` of `v`, if one
/// stands there: the index at which what follows it begins.
pub fn skip_scheme(v: &Vec<char>, lo: usize, hi: usize) -> (a: usize)
    requires
        lo <= hi <= v.len(),
    ensures
        lo <= a <= hi,
        v@.subrange(a as int, hi as int) == strip_once(v@.subrange(lo as int, hi as int)),
{
    if at_scheme(v, lo, hi) {
        assert(v@.subrange(lo as int, hi as int).skip(6) == v@.subrange(lo + 6, hi as int));
        lo + 6
    } else {
        lo
    }
}

/// Looks for `c` in the window `lo..hi` of `v`: where it stands, if it
/// occurs there exactly once.
pub fn find_single(v: &Vec<char>, lo: usize, hi: usize, c: char) -> (r: Option<usize>)
    requires
        lo <= hi <= v.len(),
    ensures
        r is Some <==> count(v@.subrange(lo as int, hi as int), c) == 1,
        r matches Some(p) ==> lo <= p < hi && p - lo == position(
            v@.subrange(lo as int, hi as int),
            c,
        ),
{
    let mut found: Option<usize> = None;
    let mut twice: bool = false;
    let mut i: usize = lo;
    while i < hi
        invariant
            lo <= i <= hi <= v.len(),
            found is None ==> count(v@.subrange(lo as int, i as int), c) == 0 && !twice,
            found is None ==> forall|j: int| lo <= j < i ==> v@[j] != c,
            found matches Some(p) ==> lo <= p < i && v@[p as int] == c && forall|j: int|
                lo <= j < p ==> v@[j] != c,
            found is Some && !twice ==> count(v@.subrange(lo as int, i as int), c) == 1,
            twice ==> count(v@.subrange(lo as int, i as int), c) >= 2,
        decreases hi - i,
    {
        assert(v@.subrange(lo as int, i + 1).drop_last() == v@.subrange(lo as int, i as int));
        if v[i] == c {
            if found.is_some() {
                twice = true;
            } else {
                found = Some(i);
            }
        }
        i += 1;
    }
    if twice {
        None
    } else {
        proof {
            if let Some(p) = found {
                let w = v@.subrange(lo as int, hi as int);
                lemma_position(w, c, p - lo);
            }
        }
        found
    }
}

/// A character occurs in a text in two parts as often as in both parts
/// together.
pub proof fn lemma_count_concat(a: Seq<char>, b: Seq<char>, c: char)
    ensures
        count(a + b, c) == count(a, c) + count(b, c),
    decreases b.len(),
{
    if b.len() == 0 {
        assert(a + b == a);
    } else {
        assert((a + b).drop_last() == a + b.drop_last());
        lemma_count_concat(a, b.drop_last(), c);
    }
}

/// A character that is counted zero times stands nowhere, and one that
/// stands nowhere is counted zero times.
pub proof fn lemma_count_zero(s: Seq<char>, c: char)
    ensures
        count(s, c) == 0 <==> forall|j: int| 0 <= j < s.len() ==> s[j] != c,
    decreases s.len(),
{
    if s.len() > 0 {
        lemma_count_zero(s.drop_last(), c);
        if count(s, c) == 0 {
            assert forall|j: int| 0 <= j < s.len() implies s[j] != c by {
                if j < s.len() - 1 {
                    assert(s.drop_last()[j] == s[j]);
                }
            }
        } else if forall|j: int| 0 <= j < s.len() ==> s[j] != c {
            assert forall|j: int| 0 <= j < s.drop_last().len() implies s.drop_last()[j] != c by {
                assert(s.drop_last()[j] == s[j]);
            }
        }
    }
}

/// `position` lies within the text or at its end, no `c` stands before it,
/// and where it lies within the text a `c` stands at it.
pub proof fn lemma_position_first(s: Seq<char>, c: char)
    ensures
        0 <= position(s, c) <= s.len(),
        forall|j: int| 0 <= j < position(s, c) ==> s[j] != c,
        position(s, c) < s.len() ==> s[position(s, c)] == c,
    decreases s.len(),
{
    if !(s.len() == 0 || s[0] == c) {
        let rest = s.drop_first();
        lemma_position_first(rest, c);
        assert forall|j: int| 0 <= j < position(s, c) implies s[j] != c by {
            if j > 0 {
                assert(rest[j - 1] == s[j]);
            }
        }
    }
}

/// Counting from the front: the first character and the rest.
pub proof fn lemma_count_first(s: Seq<char>, c: char)
    requires
        s.len() > 0,
    ensures
        s[0] == c ==> count(s, c) == count(s.drop_first(), c) + 1,
        s[0] != c ==> count(s, c) == count(s.drop_first(), c),
    decreases s.len(),
{
    let rest = s.drop_first();
    if s.len() > 1 {
        lemma_count_first(s.drop_last(), c);
        assert(s.drop_last().drop_first() == rest.drop_last());
        assert(s.drop_last()[0] == s[0]);
        assert(rest.last() == s.last());
    } else {
        assert(count(s.drop_last(), c) == 0);
        assert(count(rest, c) == 0);
    }
}

/// Trimming removes white space only: a character that is none occurs in
/// the trimmed text as often as in the whole.
pub proof fn lemma_count_trimmed(s: Seq<char>, c: char)
    requires
        !is_space(c),
    ensures
        count(trimmed(s), c) == count(s, c),
{
    lemma_count_trim_start(s, c);
    lemma_count_trim_end(trim_start(s), c);
}

proof fn lemma_count_trim_start(s: Seq<char>, c: char)
    requires
        !is_space(c),
    ensures
        count(trim_start(s), c) == count(s, c),
    decreases s.len(),
{
    if s.len() > 0 && is_space(s[0]) {
        lemma_count_first(s, c);
        lemma_count_trim_start(s.drop_first(), c);
    }
}

proof fn lemma_count_trim_end(s: Seq<char>, c: char)
    requires
        !is_space(c),
    ensures
        count(trim_end(s), c) == count(s, c),
    decreases s.len(),
{
    if s.len() > 0 && is_space(s.last()) {
        lemma_count_trim_end(s.drop_last(), c);
    }
}

/// A text that neither starts nor ends with white space is its own
/// trimmed form.
pub proof fn lemma_trimmed_fixed(s: Seq<char>)
    requires
        s.len() > 0 ==> !is_space(s[0]) && !is_space(s.last()),
    ensures
        trimmed(s) == s,
{
}

} // verus!
