//! Operations on text, each stated over the characters it holds.

use vstd::prelude::*;
use itertools::Itertools;

verus! {

/// Strict lexicographic order on character sequences (by code point, which is
/// also the order of their UTF-8 bytes).
pub open spec fn lex_lt(a: Seq<char>, b: Seq<char>) -> bool
    decreases a.len(),
{
    if a.len() == 0 {
        b.len() > 0
    } else if b.len() == 0 {
        false
    } else if a[0] != b[0] {
        a[0] < b[0]
    } else {
        lex_lt(a.drop_first(), b.drop_first())
    }
}

/// `p` occurs in `s` at position `i`.
pub open spec fn occurs_at(s: Seq<char>, p: Seq<char>, i: int) -> bool {
    0 <= i && i + p.len() <= s.len() && s.subrange(i, i + p.len()) == p
}

/// `s` with every occurrence of `p` replaced by `w`, scanning left to right
/// without overlaps; an empty `p` occurs before each character and at the end.
pub open spec fn replaced(s: Seq<char>, p: Seq<char>, w: Seq<char>) -> Seq<char>
    decreases s.len(),
{
    if p.len() == 0 {
        if s.len() == 0 {
            w
        } else {
            w + seq![s[0]] + replaced(s.drop_first(), p, w)
        }
    } else if s.len() == 0 {
        s
    } else if occurs_at(s, p, 0) {
        w + replaced(s.skip(p.len() as int), p, w)
    } else {
        seq![s[0]] + replaced(s.drop_first(), p, w)
    }
}

/// The items one after the other, with `sep` between each two.
pub open spec fn joined(items: Seq<Seq<char>>, sep: Seq<char>) -> Seq<char>
    decreases items.len(),
{
    if items.len() == 0 {
        seq![]
    } else if items.len() == 1 {
        items[0]
    } else {
        joined(items.drop_last(), sep) + sep + items.last()
    }
}

/// The views of a list of strings.
pub open spec fn views(v: Seq<String>) -> Seq<Seq<char>> {
    v.map_values(|s: String| s@)
}

/// What `char::to_uppercase` yields for a character.
pub uninterp spec fn char_upper(c: char) -> Seq<char>;

/// What `str::to_uppercase` yields for a string.
pub uninterp spec fn str_upper(s: Seq<char>) -> Seq<char>;

/// Relies on `char::to_uppercase`: the upper-case form of one character,
/// which depends on the character alone.
#[verifier::external_body]
fn upper_char(c: char) -> (r: String)
    ensures
        r@ == char_upper(c),
{
    c.to_uppercase().collect()
}

/// Relies on `str::to_uppercase`: the upper-case form of a string, which
/// depends on its characters alone.
#[verifier::external_body]
pub(crate) fn upper_str(s: &str) -> (r: String)
    ensures
        r@ == str_upper(s@),
{
    s.to_uppercase()
}

/// Relies on `itertools::Itertools::join`: the items' text in order, with `sep`
/// between each two, and the empty string for no items.
#[verifier::external_body]
pub(crate) fn join(items: &Vec<String>, sep: &str) -> (r: String)
    ensures
        r@ == joined(views(items@), sep@),
{
    items.iter().join(sep)
}

/// A new string holding `s`.
pub fn owned(s: &str) -> (r: String)
    ensures
        r@ == s@,
{
    String::from_str(s)
}

/// `a` followed by `b`.
pub fn cat(a: &str, b: &str) -> (r: String)
    ensures
        r@ == a@ + b@,
{
    let mut r = String::from_str(a);
    r.append(b);
    r
}

/// The name with its first character upper-cased.
pub fn to_uppercase(s: &str) -> (r: String)
    requires
        s@.len() > 0,
    ensures
        r@ == char_upper(s@[0]) + s@.drop_first(),
{
    let n = s.unicode_len();
    let first = s.get_char(0);
    let mut r = upper_char(first);
    let rest = s.substring_char(1, n);
    r.append(rest);
    assert(rest@ =~= s@.drop_first());
    r
}

/// A name with its first character upper-cased (nothing for an empty name).
pub open spec fn upper_first(s: Seq<char>) -> Seq<char> {
    if s.len() == 0 {
        s
    } else {
        char_upper(s[0]) + s.drop_first()
    }
}

/// The name with its first character upper-cased; an empty name stays empty.
pub fn upper_first_exec(s: &str) -> (r: String)
    ensures
        r@ == upper_first(s@),
{
    if s.unicode_len() == 0 {
        owned(s)
    } else {
        to_uppercase(s)
    }
}

/// The two strings hold the same characters.
pub fn str_eq(a: &str, b: &str) -> (r: bool)
    ensures
        r == (a@ == b@),
{
    let n = a.unicode_len();
    if n != b.unicode_len() {
        return false;
    }
    let mut i: usize = 0;
    while i < n
        invariant
            n == a@.len() == b@.len(),
            i <= n,
            a@.subrange(0, i as int) == b@.subrange(0, i as int),
        decreases n - i,
    {
        if a.get_char(i) != b.get_char(i) {
            assert(a@[i as int] != b@[i as int]);
            return false;
        }
        assert(a@.subrange(0, i + 1) =~= a@.subrange(0, i as int).push(a@[i as int]));
        assert(b@.subrange(0, i + 1) =~= b@.subrange(0, i as int).push(b@[i as int]));
        i = i + 1;
    }
    assert(a@ =~= a@.subrange(0, n as int));
    assert(b@ =~= b@.subrange(0, n as int));
    true
}

proof fn lemma_lex_lt_skip(a: Seq<char>, b: Seq<char>, i: int)
    requires
        0 <= i < a.len(),
        i < b.len(),
        a[i] == b[i],
    ensures
        lex_lt(a.skip(i), b.skip(i)) == lex_lt(a.skip(i + 1), b.skip(i + 1)),
{
    assert(a.skip(i).drop_first() =~= a.skip(i + 1));
    assert(b.skip(i).drop_first() =~= b.skip(i + 1));
}

/// `a` comes strictly before `b` in lexicographic order.
pub fn str_lt(a: &str, b: &str) -> (r: bool)
    ensures
        r == lex_lt(a@, b@),
{
    let na = a.unicode_len();
    let nb = b.unicode_len();
    let mut i: usize = 0;
    assert(a@.skip(0) =~= a@);
    assert(b@.skip(0) =~= b@);
    while i < na && i < nb
        invariant
            na == a@.len(),
            nb == b@.len(),
            i <= na,
            i <= nb,
            lex_lt(a@, b@) == lex_lt(a@.skip(i as int), b@.skip(i as int)),
        decreases na - i,
    {
        let ca = a.get_char(i);
        let cb = b.get_char(i);
        if ca != cb {
            return ca < cb;
        }
        proof {
            lemma_lex_lt_skip(a@, b@, i as int);
        }
        i = i + 1;
    }
    i == na && i < nb
}

/// `p` occurs in `s` at position `i`.
pub fn occurs_at_exec(s: &str, p: &str, i: usize) -> (r: bool)
    requires
        i <= s@.len(),
    ensures
        r == occurs_at(s@, p@, i as int),
{
    let ns = s.unicode_len();
    let np = p.unicode_len();
    if np > ns - i {
        return false;
    }
    let mut k: usize = 0;
    while k < np
        invariant
            ns == s@.len(),
            np == p@.len(),
            i + np <= ns,
            k <= np,
            forall|j: int| 0 <= j < k ==> s@[i + j] == p@[j],
        decreases np - k,
    {
        if s.get_char(i + k) != p.get_char(k) {
            assert(s@.subrange(i as int, i + np)[k as int] != p@[k as int]);
            return false;
        }
        k = k + 1;
    }
    assert(s@.subrange(i as int, i + np) =~= p@);
    true
}

/// `s` starts with `p`.
pub fn starts_with(s: &str, p: &str) -> (r: bool)
    ensures
        r == occurs_at(s@, p@, 0),
{
    occurs_at_exec(s, p, 0)
}

/// `c` occurs in `s`.
pub fn contains_char(s: &str, c: char) -> (r: bool)
    ensures
        r == s@.contains(c),
{
    let n = s.unicode_len();
    let mut i: usize = 0;
    while i < n
        invariant
            n == s@.len(),
            i <= n,
            forall|j: int| 0 <= j < i ==> s@[j] != c,
        decreases n - i,
    {
        if s.get_char(i) == c {
            return true;
        }
        i = i + 1;
    }
    false
}

proof fn lemma_replaced_step(s: Seq<char>, p: Seq<char>, w: Seq<char>, i: int)
    requires
        0 <= i < s.len(),
    ensures
        p.len() == 0 ==> replaced(s.skip(i), p, w) == w + seq![s[i]] + replaced(
            s.skip(i + 1),
            p,
            w,
        ),
        p.len() > 0 && 
        occurs_at(s, p, i) ==> replaced(s.skip(i), p, w) == w + replaced(
            s.skip(i + p.len()),
            p,
            w,
        ),
        p.len() > 0 && !occurs_at(s, p, i) ==> replaced(s.skip(i), p, w) == seq![s[i]] + replaced(
            s.skip(i + 1),
            p,
            w,
        ),
{
    let t = s.skip(i);
    assert(occurs_at(s, p, i) == occurs_at(t, p, 0)) by {
        if i + p.len() <= s.len() {
            assert(s.subrange(i, i + p.len()) =~= t.subrange(0, p.len() as int));
        }
    }
    assert(t.drop_first() =~= s.skip(i + 1));
    if p.len() > 0 && occurs_at(t, p, 0) {
        assert(t.skip(p.len() as int) =~= s.skip(i + p.len()));
    }
}

/// `s` with every occurrence of `p` replaced by `w`, left to right.
pub fn replace_all(s: &str, p: &str, w: &str) -> (r: String)
    ensures
        r@ == replaced(s@, p@, w@),
{
    let n = s.unicode_len();
    let np = p.unicode_len();
    let mut r = String::new();
    let mut i: usize = 0;
    assert(s@.skip(0) =~= s@);
    while i < n
        invariant
            n == s@.len(),
            np == p@.len(),
            i <= n,
            r@ + replaced(s@.skip(i as int), p@, w@) == replaced(s@, p@, w@),
        decreases n - i,
    {
        proof {
            lemma_replaced_step(s@, p@, w@, i as int);
        }
        if np == 0 {
            let ghost old_r = r@;
            let c = s.substring_char(i, i + 1);
            r.append(w);
            r.append(c);
            assert(c@ =~= seq![s@[i as int]]);
            assert(old_r + (w@ + seq![s@[i as int]] + replaced(s@.skip(i + 1), p@, w@)) =~= r@
                + replaced(s@.skip(i + 1), p@, w@));
            i = i + 1;
        } else if occurs_at_exec(s, p, i) {
            let ghost old_r = r@;
            r.append(w);
            assert(old_r + (w@ + replaced(s@.skip(i + np), p@, w@)) =~= r@ + replaced(
                s@.skip(i + np),
                p@,
                w@,
            ));
            i = i + np;
        } else {
            let ghost old_r = r@;
            let c = s.substring_char(i, i + 1);
            r.append(c);
            assert(c@ =~= seq![s@[i as int]]);
            assert(old_r + (seq![s@[i as int]] + replaced(s@.skip(i + 1), p@, w@)) =~= r@
                + replaced(s@.skip(i + 1), p@, w@));
            i = i + 1;
        }
    }
    assert(s@.skip(n as int) =~= Seq::<char>::empty());
    if np == 0 {
        let ghost old_r = r@;
        r.append(w);
        assert(old_r + replaced(s@.skip(n as int), p@, w@) =~= r@);
    } else {
        assert(r@ + replaced(s@.skip(n as int), p@, w@) =~= r@);
    }
    r
}

} // verus!
