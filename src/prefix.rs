//! Short generic parameter names: each generic parameter is named after the
//! shortest prefix that tells it from its neighbour in sorted order.

use vstd::prelude::*;
use crate::text::{char_upper, lex_lt, str_eq, str_lt, to_uppercase, views};
use crate::schema::{Method, Param};
use crate::classify::{convert_for, convert_of, Convert};
use indexmap::IndexMap;

verus! {

broadcast use vstd::seq_lib::group_to_multiset_ensures;

/// Why no generic names could be chosen for a method.
#[derive(Debug, PartialEq, Eq, Structural)]
pub enum PrefixError {
    /// Two neighbouring names agree up to the end of one of them.
    NoPrefix,
    /// Two parameters would get the same generic name.
    Ambiguous,
}

/// The length of the longest common prefix of `l` and `r`.
pub open spec fn common_len(l: Seq<char>, r: Seq<char>) -> nat
    decreases l.len(),
{
    if l.len() == 0 || r.len() == 0 || l[0] != r[0] {
        0
    } else {
        1 + common_len(l.drop_first(), r.drop_first())
    }
}

/// The shortest prefix of `l` that is not a prefix of `r`: `l` up to and
/// including the first position where the two differ, if they differ before
/// either ends.
pub open spec fn prefix_of(l: Seq<char>, r: Seq<char>) -> Option<Seq<char>> {
    let k = common_len(l, r);
    if k < l.len() && k < r.len() {
        Some(l.take(k + 1 as int))
    } else {
        None
    }
}

/// The names are in lexicographic order.
pub open spec fn sorted(s: Seq<Seq<char>>) -> bool {
    forall|i: int| 0 <= i < s.len() - 1 ==> !lex_lt(#[trigger] s[i + 1], s[i])
}

/// The sentinel that a lone name is compared with: it shares no first
/// character with any identifier.
pub open spec fn sentinel() -> Seq<char> {
    seq!['\0']
}

/// The prefix chosen for the `i`-th of the sorted names: against its
/// successor, or, for the last one, against its predecessor (or the sentinel
/// when it is alone).
pub open spec fn neighbor_prefix(s: Seq<Seq<char>>, i: int) -> Option<Seq<char>> {
    if s.len() == 1 {
        prefix_of(s[0], sentinel())
    } else if i < s.len() - 1 {
        prefix_of(s[i], s[i + 1])
    } else {
        prefix_of(s[i], s[i - 1])
    }
}

/// A generic name: the prefix with its first character upper-cased.
pub open spec fn generic_of(p: Seq<char>) -> Seq<char> {
    char_upper(p[0]) + p.drop_first()
}

/// No two entries are equal.
pub open spec fn distinct(s: Seq<Seq<char>>) -> bool {
    forall|i: int, j: int| 0 <= i < s.len() && 0 <= j < s.len() && i != j ==> s[i] != s[j]
}

proof fn lemma_common_len_skip(l: Seq<char>, r: Seq<char>, i: int)
    requires
        0 <= i < l.len(),
        i < r.len(),
        l[i] == r[i],
    ensures
        common_len(l.skip(i), r.skip(i)) == 1 + common_len(l.skip(i + 1), r.skip(i + 1)),
{
    assert(l.skip(i).drop_first() =~= l.skip(i + 1));
    assert(r.skip(i).drop_first() =~= r.skip(i + 1));
}

/// The shortest prefix of `l` that tells it from `r`, if there is one.
pub fn min_prefix(l: &str, r: &str) -> (res: Option<String>)
    ensures
        res is None <==> prefix_of(l@, r@) is None,
        res matches Some(p) ==> prefix_of(l@, r@) == Some(p@),
{
    let nl = l.unicode_len();
    let nr = r.unicode_len();
    let mut i: usize = 0;
    assert(l@.skip(0) =~= l@);
    assert(r@.skip(0) =~= r@);
    while i < nl && i < nr
        invariant
            nl == l@.len(),
            nr == r@.len(),
            i <= nl,
            i <= nr,
            common_len(l@, r@) == i + common_len(l@.skip(i as int), r@.skip(i as int)),
        decreases nl - i,
    {
        if l.get_char(i) != r.get_char(i) {
            assert(common_len(l@.skip(i as int), r@.skip(i as int)) == 0);
            let p = l.substring_char(0, i + 1);
            assert(p@ =~= l@.take(i + 1));
            return Some(crate::text::owned(p));
        }
        proof {
            lemma_common_len_skip(l@, r@, i as int);
        }
        i = i + 1;
    }
    assert(common_len(l@.skip(i as int), r@.skip(i as int)) == 0);
    None
}

/// Strict lexicographic order is asymmetric.
pub proof fn lemma_lex_lt_asym(a: Seq<char>, b: Seq<char>)
    requires
        lex_lt(a, b),
    ensures
        !lex_lt(b, a),
    decreases a.len(),
{
    if a.len() > 0 && b.len() > 0 && a[0] == b[0] {
        lemma_lex_lt_asym(a.drop_first(), b.drop_first());
    }
}

/// `x` inserted into `s` before the first name that comes after it.
pub open spec fn insert_name(s: Seq<Seq<char>>, x: Seq<char>) -> Seq<Seq<char>>
    decreases s.len(),
{
    if s.len() == 0 {
        seq![x]
    } else if lex_lt(x, s[0]) {
        seq![x] + s
    } else {
        seq![s[0]] + insert_name(s.drop_first(), x)
    }
}

/// The names in lexicographic order.
pub open spec fn sort_seq(l: Seq<Seq<char>>) -> Seq<Seq<char>>
    decreases l.len(),
{
    if l.len() == 0 {
        seq![]
    } else {
        insert_name(sort_seq(l.drop_first()), l[0])
    }
}

proof fn lemma_insert_name_at(s: Seq<Seq<char>>, x: Seq<char>, j: int)
    requires
        0 <= j <= s.len(),
        forall|k: int| 0 <= k < j ==> !lex_lt(x, #[trigger] s[k]),
        j < s.len() ==> lex_lt(x, s[j]),
    ensures
        insert_name(s, x) == s.insert(j, x),
    decreases s.len(),
{
    if s.len() == 0 {
        assert(s.insert(j, x) =~= seq![x]);
    } else if j == 0 {
        assert(s.insert(0, x) =~= seq![x] + s);
    } else {
        assert forall|k: int| 0 <= k < j - 1 implies !lex_lt(x, #[trigger] s.drop_first()[k]) by {
            assert(s.drop_first()[k] == s[k + 1]);
        }
        lemma_insert_name_at(s.drop_first(), x, j - 1);
        assert(!lex_lt(x, s[0]));
        assert(s.insert(j, x) =~= seq![s[0]] + s.drop_first().insert(j - 1, x));
    }
}

/// The names in lexicographic order.
pub fn sort_names(v: Vec<String>) -> (r: Vec<String>)
    ensures
        sorted(views(r@)),
        views(r@) == sort_seq(views(v@)),
        views(r@).to_multiset() == views(v@).to_multiset(),
{
    let ghost vv = views(v@);
    let mut rest = v;
    let mut out: Vec<String> = Vec::new();
    assert(vv.skip(vv.len() as int) =~= Seq::<Seq<char>>::empty());
    assert(vv.take(vv.len() as int) =~= vv);
    while rest.len() > 0
        invariant
            sorted(views(out@)),
            vv == views(v@),
            rest@.len() <= v@.len(),
            views(out@) == sort_seq(vv.skip(rest@.len() as int)),
            views(rest@) == vv.take(rest@.len() as int),
            views(out@).to_multiset().add(views(rest@).to_multiset()) == views(v@).to_multiset(),
        decreases rest@.len(),
    {
        let ghost rest_before = rest@;
        let x = rest.pop().unwrap();
        let mut j: usize = 0;
        while j < out.len() && !str_lt(x.as_str(), out[j].as_str())
            invariant
                j <= out@.len(),
                forall|k: int| 0 <= k < j ==> !lex_lt(x@, #[trigger] out@[k]@),
            decreases out@.len() - j,
        {
            j = j + 1;
        }
        let ghost before = out@;
        proof {
            if j < out@.len() {
                lemma_lex_lt_asym(x@, out@[j as int]@);
            }
        }
        proof {
            let n = rest@.len() as int;
            assert(vv.take(n + 1) == views(rest_before));
            assert(views(rest_before)[n] == x@);
            assert(vv.skip(n).drop_first() =~= vv.skip(n + 1));
            assert(vv.skip(n)[0] == vv[n]);
            assert(vv.take(n + 1)[n] == vv[n]);
            assert forall|k: int| 0 <= k < j implies !lex_lt(x@, #[trigger] views(before)[k]) by {
                assert(views(before)[k] == before[k]@);
            }
            lemma_insert_name_at(views(before), x@, j as int);
        }
        out.insert(j, x);
        proof {
            assert(out@ == before.insert(j as int, x));
            let s = views(out@);
            assert forall|i: int| 0 <= i < s.len() - 1 implies !lex_lt(#[trigger] s[i + 1], s[i]) by {
                let vb = views(before);
                if i + 1 < j {
                    assert(s[i] == vb[i] && s[i + 1] == vb[i + 1]);
                    assert(!lex_lt(vb[i + 1], vb[i]));
                } else if i + 1 == j {
                    assert(s[i] == before[i]@ && s[i + 1] == x@);
                    assert(!lex_lt(x@, before[i]@));
                } else if i == j {
                    assert(s[i] == x@ && s[i + 1] == before[i]@);
                } else {
                    assert(s[i] == vb[i - 1] && s[i + 1] == vb[i]);
                    let k = i - 1;
                    assert(sorted(vb));
                    assert(!lex_lt(vb[k + 1], vb[k]));
                    assert(k + 1 == i);
                }
            }
            assert(views(rest_before) =~= views(rest@).push(x@));
            assert(views(out@) =~= views(before).insert(j as int, x@));
            assert(views(rest@) =~= vv.take(rest@.len() as int));
        }
    }
    assert(vv.skip(0) =~= vv);
    out
}


#[verifier::external_type_specification]
#[verifier::external_body]
#[verifier::reject_recursive_types(K)]
#[verifier::reject_recursive_types(V)]
#[verifier::reject_recursive_types(S)]
pub struct ExIndexMap<K, V, S>(IndexMap<K, V, S>);

/// What a map from parameter names to their prefixes holds.
pub uninterp spec fn prefix_entries(m: IndexMap<String, String>) -> Map<Seq<char>, Seq<char>>;

/// Relies on `IndexMap::new`: a map with no entries.
#[verifier::external_body]
fn map_new() -> (r: IndexMap<String, String>)
    ensures
        prefix_entries(r).dom().len() == 0,
        prefix_entries(r).dom().finite(),
{
    IndexMap::new()
}

/// Relies on `IndexMap::insert`: the key now maps to the value, the other
/// entries stay.
#[verifier::external_body]
fn map_insert(m: &mut IndexMap<String, String>, k: String, v: String)
    ensures
        prefix_entries(*final(m)) == prefix_entries(*old(m)).insert(k@, v@),
{
    m.insert(k, v);
}

/// Relies on `IndexMap::get`: the value of the key, if it has one.
#[verifier::external_body]
pub(crate) fn map_get(m: &IndexMap<String, String>, k: &str) -> (r: Option<String>)
    ensures
        r is Some <==> prefix_entries(*m).contains_key(k@),
        r matches Some(v) ==> v@ == prefix_entries(*m)[k@],
{
    m.get(k).cloned()
}

/// A parameter becomes generic: it is required and callers may pass something
/// convertible or iterable.
pub open spec fn is_generic_param(p: Param) -> bool {
    !p.ty.is_optional() && !(convert_of(p.ty) is Id)
}

/// The names of the parameters that become generic, in order.
pub open spec fn generic_param_names(ps: Seq<Param>) -> Seq<Seq<char>>
    decreases ps.len(),
{
    if ps.len() == 0 {
        seq![]
    } else {
        let r = generic_param_names(ps.drop_last());
        if is_generic_param(ps.last()) {
            r.push(ps.last().name@)
        } else {
            r
        }
    }
}

/// Every sorted name has a prefix that tells it from its neighbour.
pub open spec fn all_prefixes_exist(s: Seq<Seq<char>>) -> bool {
    forall|i: int| 0 <= i < s.len() ==> (#[trigger] neighbor_prefix(s, i)) is Some
}

/// The prefix of each sorted name.
pub open spec fn prefixes(s: Seq<Seq<char>>) -> Seq<Seq<char>> {
    Seq::new(s.len(), |i: int| neighbor_prefix(s, i)->Some_0)
}

/// The map from each name to its prefix, filled in order.
pub open spec fn entries_of(names: Seq<Seq<char>>, prefs: Seq<Seq<char>>) -> Map<Seq<char>, Seq<char>>
    decreases names.len(),
{
    if names.len() == 0 || prefs.len() == 0 {
        Map::empty()
    } else {
        entries_of(names.drop_last(), prefs.drop_last()).insert(names.last(), prefs.last())
    }
}

/// The generic names of the parameters that have a prefix, in parameter order.
pub open spec fn generics_in_order(ps: Seq<Param>, m: Map<Seq<char>, Seq<char>>) -> Seq<Seq<char>>
    decreases ps.len(),
{
    if ps.len() == 0 {
        seq![]
    } else {
        let r = generics_in_order(ps.drop_last(), m);
        if m.contains_key(ps.last().name@) {
            r.push(generic_of(m[ps.last().name@]))
        } else {
            r
        }
    }
}

/// The generic names of a method whose generic parameters sort as `s`.
pub open spec fn generics_for(ps: Seq<Param>, s: Seq<Seq<char>>) -> Seq<Seq<char>> {
    generics_in_order(ps, entries_of(s, prefixes(s)))
}

/// The names of the parameters that become generic, in order.
pub fn generic_params(m: &Method) -> (r: Vec<String>)
    ensures
        views(r@) == generic_param_names(m.params@),
{
    let mut out: Vec<String> = Vec::new();
    let mut i: usize = 0;
    while i < m.params.len()
        invariant
            i <= m.params@.len(),
            views(out@) == generic_param_names(m.params@.take(i as int)),
        decreases m.params@.len() - i,
    {
        assert(m.params@.take(i + 1).drop_last() =~= m.params@.take(i as int));
        let p = &m.params[i];
        let optional = match &p.ty {
            crate::schema::Type::Optional(_) => true,
            _ => false,
        };
        if !optional {
            match convert_for(&p.ty) {
                Convert::Id(_) => {},
                _ => {
                    out.push(p.name.clone());
                },
            }
        }
        assert(views(out@) =~= generic_param_names(m.params@.take(i + 1)));
        i = i + 1;
    }
    assert(m.params@.take(m.params@.len() as int) =~= m.params@);
    out
}

/// The prefix of each of the sorted names: against its successor, the last
/// one against its predecessor, a lone one against the sentinel. Fails when
/// some name has no such prefix.
pub fn sorted_prefixes(names: &Vec<String>) -> (r: Result<Vec<String>, PrefixError>)
    ensures
        r is Ok <==> all_prefixes_exist(views(names@)),
        r matches Err(e) ==> e == PrefixError::NoPrefix,
        r matches Ok(p) ==> views(p@) == prefixes(views(names@)),
{
    let ghost s = views(names@);
    let n = names.len();
    let mut out: Vec<String> = Vec::new();
    let mut i: usize = 0;
    while i < n
        invariant
            n == names@.len(),
            s == views(names@),
            i <= n,
            out@.len() == i,
            forall|k: int| 0 <= k < i ==> (#[trigger] neighbor_prefix(s, k)) == Some(out@[k]@),
        decreases n - i,
    {
        let p = if n == 1 {
            min_prefix(names[0].as_str(), "\0")
        } else if i < n - 1 {
            min_prefix(names[i].as_str(), names[i + 1].as_str())
        } else {
            min_prefix(names[i].as_str(), names[i - 1].as_str())
        };
        proof {
            reveal_strlit("\0");
            assert("\0"@ =~= sentinel());
        }
        match p {
            Some(p) => {
                out.push(p);
            },
            None => {
                assert(neighbor_prefix(s, i as int) is None);
                return Err(PrefixError::NoPrefix);
            },
        }
        i = i + 1;
    }
    assert(views(out@) =~= prefixes(s));
    Ok(out)
}

proof fn lemma_entries_take(names: Seq<Seq<char>>, prefs: Seq<Seq<char>>, i: int)
    requires
        names.len() == prefs.len(),
        0 <= i < names.len(),
    ensures
        entries_of(names.take(i + 1), prefs.take(i + 1)) == entries_of(names.take(i), prefs.take(i)).insert(names[i], prefs[i]),
{
    assert(names.take(i + 1).drop_last() =~= names.take(i));
    assert(prefs.take(i + 1).drop_last() =~= prefs.take(i));
}

proof fn lemma_entries_nonempty(names: Seq<Seq<char>>, prefs: Seq<Seq<char>>)
    requires
        forall|i: int| 0 <= i < prefs.len() ==> (#[trigger] prefs[i]).len() > 0,
    ensures
        forall|a: Seq<char>|
            entries_of(names, prefs).contains_key(a) ==> (#[trigger] entries_of(names, prefs)[a]).len() > 0,
    decreases names.len(),
{
    if names.len() > 0 && prefs.len() > 0 {
        let rest = prefs.drop_last();
        assert forall|i: int| 0 <= i < rest.len() implies (#[trigger] rest[i]).len() > 0 by {
            assert(rest[i] == prefs[i]);
        }
        lemma_entries_nonempty(names.drop_last(), rest);
        assert(prefs[prefs.len() - 1].len() > 0);
        let prev = entries_of(names.drop_last(), rest);
        let e = entries_of(names, prefs);
        assert(e == prev.insert(names.last(), prefs.last()));
        assert forall|a: Seq<char>| e.contains_key(a) implies (#[trigger] e[a]).len() > 0 by {
            if a != names.last() {
                assert(prev.contains_key(a));
                assert(prev[a].len() > 0);
            }
        }
    }
}

/// All entries differ: every later one is compared with every earlier one.
pub(crate) fn all_distinct(v: &Vec<String>) -> (r: bool)
    ensures
        r == distinct(views(v@)),
{
    let mut i: usize = 0;
    while i < v.len()
        invariant
            i <= v@.len(),
            forall|a: int, b: int| 0 <= a < i && 0 <= b < i && a != b ==> v@[a]@ != v@[b]@,
        decreases v@.len() - i,
    {
        let mut j: usize = 0;
        while j < i
            invariant
                i < v@.len(),
                j <= i,
                forall|b: int| 0 <= b < j ==> v@[i as int]@ != v@[b]@,
            decreases i - j,
        {
            if str_eq(v[i].as_str(), v[j].as_str()) {
                assert(views(v@)[i as int] == views(v@)[j as int]);
                return false;
            }
            j = j + 1;
        }
        i = i + 1;
    }
    true
}

/// The sorted names of the method's generic parameters.
pub open spec fn sorted_generic_names(m: Method) -> Seq<Seq<char>> {
    sort_seq(generic_param_names(m.params@))
}

/// The map from each generic parameter's name to its prefix.
pub open spec fn method_entries(m: Method) -> Map<Seq<char>, Seq<char>> {
    entries_of(sorted_generic_names(m), prefixes(sorted_generic_names(m)))
}

/// Every generic parameter gets a prefix, and no two parameters share a
/// generic name.
pub open spec fn method_names_ok(m: Method) -> bool {
    all_prefixes_exist(sorted_generic_names(m)) && distinct(
        generics_in_order(m.params@, method_entries(m)),
    )
}

proof fn lemma_entries_dom(names: Seq<Seq<char>>, prefs: Seq<Seq<char>>, i: int)
    requires
        names.len() == prefs.len(),
        0 <= i < names.len(),
    ensures
        entries_of(names, prefs).contains_key(names[i]),
    decreases names.len(),
{
    if i < names.len() - 1 {
        lemma_entries_dom(names.drop_last(), prefs.drop_last(), i);
        assert(names.drop_last()[i] == names[i]);
    }
}

/// A generic parameter's name is among the generic names.
pub proof fn lemma_generic_param_listed(ps: Seq<Param>, i: int)
    requires
        0 <= i < ps.len(),
        is_generic_param(ps[i]),
    ensures
        generic_param_names(ps).contains(ps[i].name@),
    decreases ps.len(),
{
    let r = generic_param_names(ps.drop_last());
    if i == ps.len() - 1 {
        assert(generic_param_names(ps) == r.push(ps.last().name@));
        assert(generic_param_names(ps)[r.len() as int] == ps[i].name@);
    } else {
        lemma_generic_param_listed(ps.drop_last(), i);
        assert(ps.drop_last()[i] == ps[i]);
        let k = choose|k: int| 0 <= k < r.len() && r[k] == ps[i].name@;
        if is_generic_param(ps.last()) {
            assert(generic_param_names(ps)[k] == r[k]);
        }
    }
}

/// The map from each generic parameter's name to its prefix: the names are
/// sorted, and each gets the prefix that tells it from its neighbour. Fails
/// when a name has no such prefix.
pub fn prefix_table(m: &Method) -> (r: Result<IndexMap<String, String>, PrefixError>)
    ensures
        r is Ok <==> all_prefixes_exist(sorted_generic_names(*m)),
        r matches Err(e) ==> e == PrefixError::NoPrefix,
        r matches Ok(map) ==> prefix_entries(map) == method_entries(*m),
        r matches Ok(map) ==> forall|k: Seq<char>|
            #[trigger] generic_param_names(m.params@).contains(k) ==> prefix_entries(map).contains_key(k),
        r matches Ok(map) ==> forall|k: Seq<char>|
            #[trigger] prefix_entries(map).contains_key(k) ==> prefix_entries(map)[k].len() > 0,
{
    let names = sort_names(generic_params(m));
    let ghost s = views(names@);
    let prefs = match sorted_prefixes(&names) {
        Ok(p) => p,
        Err(e) => {
            return Err(e);
        },
    };
    let mut map = map_new();
    let mut i: usize = 0;
    assert(s.take(0) =~= Seq::<Seq<char>>::empty());
    assert(views(prefs@).len() == prefs@.len());
    assert(prefix_entries(map) =~= Map::<Seq<char>, Seq<char>>::empty());
    while i < names.len()
        invariant
            s == views(names@),
            views(prefs@) == prefixes(s),
            prefs@.len() == names@.len(),
            i <= names@.len(),
            prefix_entries(map) == entries_of(s.take(i as int), prefixes(s).take(i as int)),
        decreases names@.len() - i,
    {
        proof {
            lemma_entries_take(s, prefixes(s), i as int);
        }
        map_insert(&mut map, names[i].clone(), prefs[i].clone());
        i = i + 1;
    }
    assert(s.take(s.len() as int) =~= s);
    assert(prefixes(s).take(s.len() as int) =~= prefixes(s));
    proof {
        let e = entries_of(s, prefixes(s));
        assert forall|i: int| 0 <= i < prefixes(s).len() implies (#[trigger] prefixes(s)[i]).len() > 0 by {
            assert(neighbor_prefix(s, i) is Some);
        }
        lemma_entries_nonempty(s, prefixes(s));
        let g = generic_param_names(m.params@);
        assert forall|k: Seq<char>| #[trigger] g.contains(k) implies e.contains_key(k) by {
            assert(g.to_multiset().count(k) > 0);
            assert(s.to_multiset().count(k) > 0);
            assert(s.contains(k));
            let j = choose|j: int| 0 <= j < s.len() && s[j] == k;
            lemma_entries_dom(s, prefixes(s), j);
        }
    }
    Ok(map)
}

/// The generic names of the parameters in the table, in parameter order.
pub(crate) fn generics_list(ps: &Vec<Param>, map: &IndexMap<String, String>) -> (r: Vec<String>)
    requires
        forall|k: Seq<char>|
            #[trigger] prefix_entries(*map).contains_key(k) ==> prefix_entries(*map)[k].len() > 0,
    ensures
        views(r@) == generics_in_order(ps@, prefix_entries(*map)),
{
    let ghost e = prefix_entries(*map);
    let mut out: Vec<String> = Vec::new();
    let mut k: usize = 0;
    while k < ps.len()
        invariant
            e == prefix_entries(*map),
            k <= ps@.len(),
            views(out@) == generics_in_order(ps@.take(k as int), e),
            forall|a: Seq<char>| #[trigger] e.contains_key(a) ==> e[a].len() > 0,
        decreases ps@.len() - k,
    {
        assert(ps@.take(k + 1).drop_last() =~= ps@.take(k as int));
        match map_get(map, ps[k].name.as_str()) {
            Some(p) => {
                out.push(to_uppercase(p.as_str()));
            },
            None => {},
        }
        assert(views(out@) =~= generics_in_order(ps@.take(k + 1), e));
        k = k + 1;
    }
    assert(ps@.take(ps@.len() as int) =~= ps@);
    out
}

/// The generic name of each generic parameter, in parameter order: the
/// parameters' names are sorted, each gets the prefix that tells it from its
/// neighbour, and the prefix's first character is upper-cased. Fails when a
/// name has no such prefix, or when two parameters would share a name.
pub fn generic_names(m: &Method) -> (r: Result<Vec<String>, PrefixError>)
    ensures
        r == Err::<Vec<String>, PrefixError>(PrefixError::NoPrefix) <==> !all_prefixes_exist(
            sorted_generic_names(*m),
        ),
        r == Err::<Vec<String>, PrefixError>(PrefixError::Ambiguous) <==> all_prefixes_exist(
            sorted_generic_names(*m),
        ) && !distinct(generics_in_order(m.params@, method_entries(*m))),
        r matches Ok(g) ==> views(g@) == generics_in_order(m.params@, method_entries(*m)),
        r matches Ok(g) ==> distinct(views(g@)),
{
    let map = match prefix_table(m) {
        Ok(map) => map,
        Err(e) => {
            return Err(e);
        },
    };
    let out = generics_list(&m.params, &map);
    if !all_distinct(&out) {
        return Err(PrefixError::Ambiguous);
    }
    Ok(out)
}

/// `a` comes no later than `b`.
pub open spec fn lex_le(a: Seq<char>, b: Seq<char>) -> bool {
    !lex_lt(b, a)
}

proof fn lemma_lex_le_trans(a: Seq<char>, b: Seq<char>, c: Seq<char>)
    requires
        lex_le(a, b),
        lex_le(b, c),
    ensures
        lex_le(a, c),
    decreases a.len(),
{
    if a.len() > 0 && b.len() > 0 && c.len() > 0 {
        if a[0] == b[0] && b[0] == c[0] {
            lemma_lex_le_trans(a.drop_first(), b.drop_first(), c.drop_first());
        } else {
            assert(a[0] <= b[0]);
            assert(b[0] <= c[0]);
        }
    } else if a.len() > 0 && b.len() > 0 {
        assert(c.len() == 0);
        assert(lex_lt(c, b));
    } else if a.len() > 0 {
        assert(lex_lt(b, a));
    }
}

proof fn lemma_lex_lt_irrefl(a: Seq<char>)
    ensures
        !lex_lt(a, a),
    decreases a.len(),
{
    if a.len() > 0 {
        lemma_lex_lt_irrefl(a.drop_first());
    }
}

proof fn lemma_sorted_le(s: Seq<Seq<char>>, i: int, j: int)
    requires
        sorted(s),
        0 <= i <= j < s.len(),
    ensures
        lex_le(s[i], s[j]),
    decreases j - i,
{
    if i == j {
        lemma_lex_lt_irrefl(s[i]);
    } else {
        lemma_sorted_le(s, i, j - 1);
        let k = j - 1;
        assert(!lex_lt(s[k + 1], s[k]));
        lemma_lex_le_trans(s[i], s[j - 1], s[j]);
    }
}

proof fn lemma_between_shares(a: Seq<char>, b: Seq<char>, c: Seq<char>, n: int)
    requires
        lex_le(a, b),
        lex_le(b, c),
        0 <= n <= a.len(),
        n <= c.len(),
        a.take(n) == c.take(n),
    ensures
        n <= b.len(),
        b.take(n) == a.take(n),
    decreases n,
{
    if n > 0 {
        assert(a[0] == a.take(n)[0] && c[0] == c.take(n)[0]);
        assert(b.len() > 0);
        assert(a[0] == b[0]);
        assert(a.drop_first().take(n - 1) =~= a.take(n).drop_first());
        assert(c.drop_first().take(n - 1) =~= c.take(n).drop_first());
        lemma_between_shares(a.drop_first(), b.drop_first(), c.drop_first(), n - 1);
        assert(b.take(n) =~= seq![b[0]] + b.drop_first().take(n - 1));
        assert(a.take(n) =~= seq![a[0]] + a.drop_first().take(n - 1));
    }
}

proof fn lemma_common_len(l: Seq<char>, r: Seq<char>)
    ensures
        common_len(l, r) <= l.len(),
        common_len(l, r) <= r.len(),
        l.take(common_len(l, r) as int) == r.take(common_len(l, r) as int),
        common_len(l, r) < l.len() && common_len(l, r) < r.len() ==> l[common_len(l, r) as int]
            != r[common_len(l, r) as int],
    decreases l.len(),
{
    let k = common_len(l, r);
    if l.len() == 0 || r.len() == 0 || l[0] != r[0] {
        assert(l.take(0) =~= r.take(0));
    } else {
        lemma_common_len(l.drop_first(), r.drop_first());
        assert(l.take(k as int) =~= seq![l[0]] + l.drop_first().take(k - 1));
        assert(r.take(k as int) =~= seq![r[0]] + r.drop_first().take(k - 1));
    }
}

/// Sorted names without duplicates, each of which has a prefix that tells it
/// from its neighbour, get pairwise different prefixes.
pub proof fn lemma_prefixes_distinct(s: Seq<Seq<char>>)
    requires
        sorted(s),
        distinct(s),
        all_prefixes_exist(s),
    ensures
        distinct(prefixes(s)),
{
    let p = prefixes(s);
    assert forall|i: int, j: int| 0 <= i < p.len() && 0 <= j < p.len() && i != j implies p[i] != p[j] by {
        let a = if i < j { i } else { j };
        let b = if i < j { j } else { i };
        assert(neighbor_prefix(s, a) is Some);
        assert(neighbor_prefix(s, b) is Some);
        lemma_common_len(s[a], s[a + 1]);
        let k = common_len(s[a], s[a + 1]) as int;
        if p[a] == p[b] {
            assert(p[a] == s[a].take(k + 1));
            if s.len() - 1 == b {
                lemma_common_len(s[b], s[b - 1]);
            } else {
                lemma_common_len(s[b], s[b + 1]);
            }
            assert(p[b].len() <= s[b].len());
            assert(s[b].take(k + 1) == p[b]);
            lemma_sorted_le(s, a, a + 1);
            lemma_sorted_le(s, a + 1, b);
            lemma_between_shares(s[a], s[a + 1], s[b], k + 1);
            assert(s[a][k] == s[a].take(k + 1)[k]);
            assert(s[a + 1][k] == s[a + 1].take(k + 1)[k]);
        }
    }
}


/// The names with each run of equal neighbours kept once.
pub open spec fn dedup_adjacent(s: Seq<Seq<char>>) -> Seq<Seq<char>>
    decreases s.len(),
{
    if s.len() <= 1 {
        s
    } else {
        let r = dedup_adjacent(s.drop_last());
        if s.last() == s[s.len() - 2] {
            r
        } else {
            r.push(s.last())
        }
    }
}

/// The names with each run of equal neighbours kept once.
pub fn dedup_names(v: &Vec<String>) -> (r: Vec<String>)
    ensures
        views(r@) == dedup_adjacent(views(v@)),
{
    let mut out: Vec<String> = Vec::new();
    let mut i: usize = 0;
    while i < v.len()
        invariant
            i <= v@.len(),
            views(out@) == dedup_adjacent(views(v@.take(i as int))),
        decreases v@.len() - i,
    {
        let ghost t = views(v@.take(i + 1));
        assert(t.drop_last() =~= views(v@.take(i as int)));
        assert(t.last() == v@[i as int]@);
        if i == 0 || !str_eq(v[i].as_str(), v[i - 1].as_str()) {
            let ghost o = out@;
            out.push(v[i].clone());
            assert(views(out@) =~= views(o).push(v@[i as int]@));
            if i > 0 {
                assert(t[t.len() - 2] == v@[i - 1]@);
            } else {
                assert(t =~= seq![v@[0]@]);
            }
        } else {
            assert(t[t.len() - 2] == v@[i - 1]@);
        }
        i = i + 1;
    }
    assert(v@.take(v@.len() as int) =~= v@);
    out
}


proof fn lemma_insert_name(s: Seq<Seq<char>>, x: Seq<char>)
    requires
        sorted(s),
    ensures
        sorted(insert_name(s, x)),
        insert_name(s, x).len() == s.len() + 1,
        insert_name(s, x)[0] == x || (s.len() > 0 && insert_name(s, x)[0] == s[0]),
        insert_name(s, x).to_multiset() == s.to_multiset().insert(x),
    decreases s.len(),
{
    let r = insert_name(s, x);
    if s.len() == 0 {
        assert(seq![x] =~= s.insert(0, x));
    } else if lex_lt(x, s[0]) {
        lemma_lex_lt_asym(x, s[0]);
        assert(r =~= s.insert(0, x));
        assert forall|i: int| 0 <= i < r.len() - 1 implies !lex_lt(#[trigger] r[i + 1], r[i]) by {
            if i > 0 {
                let k = i - 1;
                assert(r[i] == s[k] && r[i + 1] == s[k + 1]);
            }
        }
    } else {
        let t = insert_name(s.drop_first(), x);
        assert forall|i: int| 0 <= i < s.len() - 2 implies !lex_lt(#[trigger] s.drop_first()[i + 1], s.drop_first()[i]) by {
            let k = i + 1;
            assert(s.drop_first()[i] == s[k] && s.drop_first()[i + 1] == s[k + 1]);
        }
        lemma_insert_name(s.drop_first(), x);
        assert(r =~= t.insert(0, s[0]));
        assert forall|i: int| 0 <= i < r.len() - 1 implies !lex_lt(#[trigger] r[i + 1], r[i]) by {
            if i == 0 {
                if t[0] != x {
                    assert(t[0] == s[1]);
                    let z: int = 0;
                    assert(!lex_lt(s[z + 1], s[z]));
                }
            } else {
                let k = i - 1;
                assert(r[i] == t[k] && r[i + 1] == t[k + 1]);
            }
        }
        assert(s =~= s.drop_first().insert(0, s[0]));
        assert(t.to_multiset().insert(s[0]) =~= s.to_multiset().insert(x));
    }
}

proof fn lemma_sort_seq(l: Seq<Seq<char>>)
    ensures
        sorted(sort_seq(l)),
        sort_seq(l).to_multiset() == l.to_multiset(),
    decreases l.len(),
{
    if l.len() == 0 {
        assert(sort_seq(l).to_multiset() =~= l.to_multiset());
    } else {
        lemma_sort_seq(l.drop_first());
        lemma_insert_name(sort_seq(l.drop_first()), l[0]);
        assert(l =~= l.drop_first().insert(0, l[0]));
    }
}

/// For a method whose generic parameters have pairwise different names, each
/// of which gets a prefix, the prefixes are pairwise different.
pub proof fn lemma_method_prefixes_distinct(m: Method)
    requires
        distinct(generic_param_names(m.params@)),
        all_prefixes_exist(sorted_generic_names(m)),
    ensures
        distinct(prefixes(sorted_generic_names(m))),
{
    let g = generic_param_names(m.params@);
    let s = sorted_generic_names(m);
    lemma_sort_seq(g);
    assert(g.no_duplicates());
    g.lemma_multiset_has_no_duplicates();
    s.lemma_multiset_has_no_duplicates_conv();
    lemma_prefixes_distinct(s);
}

} // verus!
