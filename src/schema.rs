//! The schema: methods, their parameters, types and documentation.

use vstd::prelude::*;

verus! {

/// The type of a parameter or of a method's result, as the schema writes it.
pub enum Type {
    True,
    U8,
    U16,
    U32,
    I32,
    U64,
    I64,
    F64,
    Bool,
    Str,
    Optional(Box<Type>),
    ArrayOf(Box<Type>),
    RawTy(String),
    Url,
    DateTime,
}

/// The version of the API that a schema describes.
pub struct ApiVersion {
    pub ver: String,
    pub date: String,
}

/// A piece of markdown documentation with its link table (`[key]: url`).
pub struct Doc {
    pub md: String,
    pub md_links: Vec<(String, String)>,
}

/// One parameter of a method.
pub struct Param {
    pub name: String,
    pub ty: Type,
    pub descr: Doc,
}

/// One method of the API: its names (as written upstream, as a type, as an
/// identifier), its result, its documentation and its parameters.
pub struct Method {
    pub names: (String, String, String),
    pub return_ty: Type,
    pub doc: Doc,
    pub tg_doc: String,
    pub tg_category: String,
    pub notes: Vec<Doc>,
    pub params: Vec<Param>,
    pub sibling: Option<String>,
}

/// The whole description that generation starts from.
pub struct Schema {
    pub api_version: ApiVersion,
    pub methods: Vec<Method>,
    pub tg_categoryes: Vec<(String, String)>,
}

/// The keys of a link table.
pub open spec fn link_keys(links: Seq<(String, String)>) -> Seq<Seq<char>> {
    links.map_values(|l: (String, String)| l.0@)
}

/// A link table names each key once.
pub open spec fn links_unique(links: Seq<(String, String)>) -> bool {
    forall|i: int, j: int|
        0 <= i < links.len() && 0 <= j < links.len() && i != j ==> links[i].0@ != links[j].0@
}

impl Type {
    /// The type is wrapped in `Option`.
    pub open spec fn is_optional(&self) -> bool {
        self is Optional
    }

    /// A copy of the type.
    pub fn copy(&self) -> (r: Type)
        ensures
            r == *self,
        decreases self,
    {
        match self {
            Type::True => Type::True,
            Type::U8 => Type::U8,
            Type::U16 => Type::U16,
            Type::U32 => Type::U32,
            Type::I32 => Type::I32,
            Type::U64 => Type::U64,
            Type::I64 => Type::I64,
            Type::F64 => Type::F64,
            Type::Bool => Type::Bool,
            Type::Str => Type::Str,
            Type::Optional(inner) => Type::Optional(Box::new((**inner).copy())),
            Type::ArrayOf(inner) => Type::ArrayOf(Box::new((**inner).copy())),
            Type::RawTy(raw) => Type::RawTy(raw.clone()),
            Type::Url => Type::Url,
            Type::DateTime => Type::DateTime,
        }
    }
}

/// The link table as a map from key to URL.
pub open spec fn links_map(l: Seq<(String, String)>) -> Map<Seq<char>, Seq<char>>
    decreases l.len(),
{
    if l.len() == 0 {
        Map::empty()
    } else {
        links_map(l.drop_last()).insert(l.last().0@, l.last().1@)
    }
}

proof fn lemma_links_unique_drop_last(l: Seq<(String, String)>)
    requires
        links_unique(l),
        l.len() > 0,
    ensures
        links_unique(l.drop_last()),
{
    assert forall|i: int, j: int|
        0 <= i < l.len() - 1 && 0 <= j < l.len() - 1 && i != j implies l.drop_last()[i].0@
        != l.drop_last()[j].0@ by {
        assert(l.drop_last()[i] == l[i] && l.drop_last()[j] == l[j]);
    }
}

/// A key that no entry has is not in the map.
pub proof fn lemma_links_absent(l: Seq<(String, String)>, k: Seq<char>)
    requires
        forall|i: int| 0 <= i < l.len() ==> (#[trigger] l[i]).0@ != k,
    ensures
        !links_map(l).contains_key(k),
    decreases l.len(),
{
    if l.len() > 0 {
        assert forall|i: int| 0 <= i < l.len() - 1 implies (#[trigger] l.drop_last()[i]).0@ != k by {
            assert(l.drop_last()[i] == l[i]);
        }
        lemma_links_absent(l.drop_last(), k);
        assert(l[l.len() - 1].0@ != k);
    }
}

/// Every key in the map is the key of some entry.
pub proof fn lemma_links_dom(l: Seq<(String, String)>, k: Seq<char>)
    requires
        links_map(l).contains_key(k),
    ensures
        exists|i: int| 0 <= i < l.len() && (#[trigger] l[i]).0@ == k,
    decreases l.len(),
{
    if l.last().0@ != k {
        lemma_links_dom(l.drop_last(), k);
        let i = choose|i: int| 0 <= i < l.len() - 1 && (#[trigger] l.drop_last()[i]).0@ == k;
        assert(l[i] == l.drop_last()[i]);
    }
}

/// Each entry of a table with unique keys is in the map.
pub proof fn lemma_links_index(l: Seq<(String, String)>, i: int)
    requires
        links_unique(l),
        0 <= i < l.len(),
    ensures
        links_map(l).contains_key(l[i].0@),
        links_map(l)[l[i].0@] == l[i].1@,
    decreases l.len(),
{
    if i < l.len() - 1 {
        lemma_links_unique_drop_last(l);
        lemma_links_index(l.drop_last(), i);
        assert(l.drop_last()[i] == l[i]);
        assert(l[l.len() - 1].0@ != l[i].0@);
    }
}

proof fn lemma_links_update(l: Seq<(String, String)>, i: int, x: (String, String))
    requires
        links_unique(l),
        0 <= i < l.len(),
        x.0@ == l[i].0@,
    ensures
        links_map(l.update(i, x)) == links_map(l).insert(x.0@, x.1@),
        links_unique(l.update(i, x)),
    decreases l.len(),
{
    let u = l.update(i, x);
    assert forall|a: int, b: int| 0 <= a < u.len() && 0 <= b < u.len() && a != b implies u[a].0@
        != u[b].0@ by {
        assert(u[a].0@ == l[a].0@ && u[b].0@ == l[b].0@);
    }
    if i == l.len() - 1 {
        assert(u.drop_last() =~= l.drop_last());
        assert(links_map(u) =~= links_map(l).insert(x.0@, x.1@));
    } else {
        lemma_links_unique_drop_last(l);
        assert(u.drop_last() =~= l.drop_last().update(i, x));
        lemma_links_update(l.drop_last(), i, x);
        assert(l[l.len() - 1].0@ != l[i].0@);
        assert(links_map(u) =~= links_map(l).insert(x.0@, x.1@));
    }
}

proof fn lemma_links_remove(l: Seq<(String, String)>, i: int)
    requires
        links_unique(l),
        0 <= i < l.len(),
    ensures
        links_map(l.remove(i)) == links_map(l).remove(l[i].0@),
        links_unique(l.remove(i)),
    decreases l.len(),
{
    let r = l.remove(i);
    assert forall|a: int, b: int| 0 <= a < r.len() && 0 <= b < r.len() && a != b implies r[a].0@
        != r[b].0@ by {
        let a2 = if a < i { a } else { a + 1 };
        let b2 = if b < i { b } else { b + 1 };
        assert(r[a] == l[a2] && r[b] == l[b2]);
    }
    lemma_links_unique_drop_last(l);
    if i == l.len() - 1 {
        assert(r =~= l.drop_last());
        assert forall|j: int| 0 <= j < l.len() - 1 implies (#[trigger] l.drop_last()[j]).0@ != l[i].0@ by {
            assert(l.drop_last()[j] == l[j]);
        }
        lemma_links_absent(l.drop_last(), l[i].0@);
        assert(links_map(r) =~= links_map(l).remove(l[i].0@));
    } else {
        assert(r.drop_last() =~= l.drop_last().remove(i));
        assert(r.last() == l.last());
        lemma_links_remove(l.drop_last(), i);
        assert(l.drop_last()[i] == l[i]);
        assert(l[l.len() - 1].0@ != l[i].0@);
        assert(links_map(r) =~= links_map(l).remove(l[i].0@));
    }
}

impl Doc {
    /// The link table names each key once.
    pub open spec fn wf(&self) -> bool {
        links_unique(self.md_links@)
    }

    /// The link table as a map.
    pub open spec fn links(&self) -> Map<Seq<char>, Seq<char>> {
        links_map(self.md_links@)
    }

    /// A documentation text without links.
    pub fn new(md: String) -> (r: Doc)
        ensures
            r.wf(),
            r.md@ == md@,
            r.links() == Map::<Seq<char>, Seq<char>>::empty(),
    {
        let r = Doc { md, md_links: Vec::new() };
        assert(r.links() =~= Map::<Seq<char>, Seq<char>>::empty());
        r
    }

    /// The position of the link with key `k`, if there is one.
    pub fn find_link(&self, k: &str) -> (r: Option<usize>)
        requires
            self.wf(),
        ensures
            r is Some <==> self.links().contains_key(k@),
            r matches Some(i) ==> i < self.md_links@.len() && self.md_links@[i as int].0@ == k@
                && self.links()[k@] == self.md_links@[i as int].1@,
    {
        let mut i: usize = 0;
        while i < self.md_links.len()
            invariant
                self.wf(),
                i <= self.md_links@.len(),
                forall|j: int| 0 <= j < i ==> (#[trigger] self.md_links@[j]).0@ != k@,
            decreases self.md_links@.len() - i,
        {
            if crate::text::str_eq(self.md_links[i].0.as_str(), k) {
                proof {
                    lemma_links_index(self.md_links@, i as int);
                }
                return Some(i);
            }
            i = i + 1;
        }
        proof {
            lemma_links_absent(self.md_links@, k@);
        }
        None
    }

    /// Sets the URL of key `k`, adding the link if it is not there.
    pub fn set_link(&mut self, k: String, v: String)
        requires
            old(self).wf(),
        ensures
            final(self).wf(),
            final(self).md == old(self).md,
            final(self).links() == old(self).links().insert(k@, v@),
    {
        match self.find_link(k.as_str()) {
            Some(i) => {
                let ghost l = self.md_links@;
                proof {
                    lemma_links_update(l, i as int, (k, v));
                }
                self.md_links.set(i, (k, v));
            },
            None => {
                let ghost l = self.md_links@;
                proof {
                    assert forall|j: int| 0 <= j < l.len() implies (#[trigger] l[j]).0@ != k@ by {
                        if l[j].0@ == k@ {
                            lemma_links_index(l, j);
                        }
                    }
                }
                self.md_links.push((k, v));
                assert(self.md_links@.drop_last() =~= l);
                assert(links_unique(self.md_links@)) by {
                    let n = self.md_links@;
                    assert forall|a: int, b: int| 0 <= a < n.len() && 0 <= b < n.len() && a != b implies n[a].0@ != n[b].0@ by {
                        if a < l.len() {
                            assert(n[a] == l[a]);
                        }
                        if b < l.len() {
                            assert(n[b] == l[b]);
                        }
                    }
                }
            },
        }
    }

    /// Removes the link with key `k`, handing back its URL if it was there.
    pub fn remove_link(&mut self, k: &str) -> (r: Option<String>)
        requires
            old(self).wf(),
        ensures
            final(self).wf(),
            final(self).md == old(self).md,
            final(self).links() == old(self).links().remove(k@),
            r is Some <==> old(self).links().contains_key(k@),
            r matches Some(v) ==> v@ == old(self).links()[k@],
    {
        match self.find_link(k) {
            Some(i) => {
                let ghost l = self.md_links@;
                proof {
                    lemma_links_remove(l, i as int);
                }
                let (_, v) = self.md_links.remove(i);
                Some(v)
            },
            None => {
                assert(self.links().remove(k@) =~= self.links());
                None
            },
        }
    }
}

} // verus!
