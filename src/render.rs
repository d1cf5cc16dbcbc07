//! Rendering of types and documentation comments.

use vstd::prelude::*;
use crate::schema::{Doc, Type};
use crate::text::{cat, joined, lex_lt, owned, replace_all, replaced, str_lt, upper_first, upper_first_exec, join};
use crate::prefix::lemma_lex_lt_asym;

verus! {

broadcast use vstd::seq_lib::group_to_multiset_ensures;

/// How a type is written in generated code.
pub open spec fn ty_text(t: Type) -> Seq<char>
    decreases t,
{
    match t {
        Type::True => "True"@,
        Type::U8 => "u8"@,
        Type::U16 => "u16"@,
        Type::U32 => "u32"@,
        Type::I32 => "i32"@,
        Type::U64 => "u64"@,
        Type::I64 => "i64"@,
        Type::F64 => "f64"@,
        Type::Bool => "bool"@,
        Type::Str => "String"@,
        Type::Optional(inner) => "Option<"@ + ty_text(*inner) + ">"@,
        Type::ArrayOf(inner) => "Vec<"@ + ty_text(*inner) + ">"@,
        Type::RawTy(raw) => raw@,
        Type::Url => "Url"@,
        Type::DateTime => "DateTime<Utc>"@,
    }
}

impl Type {
    /// How the type is written in generated code.
    pub fn to_text(&self) -> (r: String)
        ensures
            r@ == ty_text(*self),
        decreases self,
    {
        match self {
            Type::True => owned("True"),
            Type::U8 => owned("u8"),
            Type::U16 => owned("u16"),
            Type::U32 => owned("u32"),
            Type::I32 => owned("i32"),
            Type::U64 => owned("u64"),
            Type::I64 => owned("i64"),
            Type::F64 => owned("f64"),
            Type::Bool => owned("bool"),
            Type::Str => owned("String"),
            Type::Optional(inner) => {
                let t = (**inner).to_text();
                cat(cat("Option<", t.as_str()).as_str(), ">")
            },
            Type::ArrayOf(inner) => {
                let t = (**inner).to_text();
                cat(cat("Vec<", t.as_str()).as_str(), ">")
            },
            Type::RawTy(raw) => raw.clone(),
            Type::Url => owned("Url"),
            Type::DateTime => owned("DateTime<Utc>"),
        }
    }
}

/// The views of a link table's entries.
pub open spec fn pair_views(l: Seq<(String, String)>) -> Seq<(Seq<char>, Seq<char>)> {
    l.map_values(|p: (String, String)| (p.0@, p.1@))
}

/// The entries are in order of their keys.
pub open spec fn sorted_by_key(s: Seq<(Seq<char>, Seq<char>)>) -> bool {
    forall|i: int| 0 <= i < s.len() - 1 ==> !lex_lt(#[trigger] s[i + 1].0, s[i].0)
}

/// `x` inserted into `s` before the first entry whose key comes after its own.
pub open spec fn insert_by_key(s: Seq<(Seq<char>, Seq<char>)>, x: (Seq<char>, Seq<char>)) -> Seq<(Seq<char>, Seq<char>)>
    decreases s.len(),
{
    if s.len() == 0 {
        seq![x]
    } else if lex_lt(x.0, s[0].0) {
        seq![x] + s
    } else {
        seq![s[0]] + insert_by_key(s.drop_first(), x)
    }
}

/// The entries in order of their keys, entries with equal keys in reverse
/// order of position.
pub open spec fn sort_by_key(l: Seq<(Seq<char>, Seq<char>)>) -> Seq<(Seq<char>, Seq<char>)>
    decreases l.len(),
{
    if l.len() == 0 {
        seq![]
    } else {
        insert_by_key(sort_by_key(l.drop_first()), l[0])
    }
}

proof fn lemma_insert_by_key_at(s: Seq<(Seq<char>, Seq<char>)>, x: (Seq<char>, Seq<char>), j: int)
    requires
        0 <= j <= s.len(),
        forall|k: int| 0 <= k < j ==> !lex_lt(x.0, #[trigger] s[k].0),
        j < s.len() ==> lex_lt(x.0, s[j].0),
    ensures
        insert_by_key(s, x) == s.insert(j, x),
    decreases s.len(),
{
    if s.len() == 0 {
        assert(s.insert(j, x) =~= seq![x]);
    } else if j == 0 {
        assert(s.insert(0, x) =~= seq![x] + s);
    } else {
        assert forall|k: int| 0 <= k < j - 1 implies !lex_lt(x.0, #[trigger] s.drop_first()[k].0) by {
            assert(s.drop_first()[k] == s[k + 1]);
        }
        lemma_insert_by_key_at(s.drop_first(), x, j - 1);
        assert(!lex_lt(x.0, s[0].0));
        assert(s.insert(j, x) =~= seq![s[0]] + s.drop_first().insert(j - 1, x));
    }
}

/// The entries in order of their keys.
pub fn sort_links(v: Vec<(String, String)>) -> (r: Vec<(String, String)>)
    ensures
        sorted_by_key(pair_views(r@)),
        pair_views(r@) == sort_by_key(pair_views(v@)),
        pair_views(r@).to_multiset() == pair_views(v@).to_multiset(),
{
    let ghost vv = pair_views(v@);
    let mut rest = v;
    let mut out: Vec<(String, String)> = Vec::new();
    assert(vv.skip(vv.len() as int) =~= Seq::<(Seq<char>, Seq<char>)>::empty());
    assert(vv.take(vv.len() as int) =~= vv);
    while rest.len() > 0
        invariant
            sorted_by_key(pair_views(out@)),
            vv == pair_views(v@),
            rest@.len() <= v@.len(),
            pair_views(out@) == sort_by_key(vv.skip(rest@.len() as int)),
            pair_views(rest@) == vv.take(rest@.len() as int),
            pair_views(out@).to_multiset().add(pair_views(rest@).to_multiset()) == pair_views(v@).to_multiset(),
        decreases rest@.len(),
    {
        let ghost rest_before = rest@;
        let x = rest.pop().unwrap();
        let mut j: usize = 0;
        while j < out.len() && !str_lt(x.0.as_str(), out[j].0.as_str())
            invariant
                j <= out@.len(),
                forall|k: int| 0 <= k < j ==> !lex_lt(x.0@, (#[trigger] out@[k]).0@),
            decreases out@.len() - j,
        {
            j = j + 1;
        }
        let ghost before = out@;
        proof {
            if j < out@.len() {
                lemma_lex_lt_asym(x.0@, out@[j as int].0@);
            }
        }
        let ghost xv = (x.0@, x.1@);
        proof {
            let n = rest@.len() as int;
            assert(vv.take(n + 1) == pair_views(rest_before));
            assert(pair_views(rest_before)[n] == xv);
            assert(vv.skip(n).drop_first() =~= vv.skip(n + 1));
            assert(vv.skip(n)[0] == vv[n]);
            assert(vv.take(n + 1)[n] == vv[n]);
            assert forall|k: int| 0 <= k < j implies !lex_lt(xv.0, #[trigger] pair_views(before)[k].0) by {
                assert(pair_views(before)[k].0 == before[k].0@);
            }
            lemma_insert_by_key_at(pair_views(before), xv, j as int);
        }
        out.insert(j, x);
        proof {
            let s = pair_views(out@);
            let vb = pair_views(before);
            assert(s =~= vb.insert(j as int, xv));
            assert forall|i: int| 0 <= i < s.len() - 1 implies !lex_lt(#[trigger] s[i + 1].0, s[i].0) by {
                if i + 1 < j {
                    assert(s[i] == vb[i] && s[i + 1] == vb[i + 1]);
                    assert(!lex_lt(vb[i + 1].0, vb[i].0));
                } else if i + 1 == j {
                    assert(s[i].0 == before[i].0@ && s[i + 1].0 == xv.0);
                } else if i == j {
                    assert(s[i].0 == xv.0 && s[i + 1].0 == before[i].0@);
                } else {
                    let k = i - 1;
                    assert(s[i] == vb[k] && s[i + 1] == vb[k + 1]);
                    assert(sorted_by_key(vb));
                    assert(!lex_lt(vb[k + 1].0, vb[k].0));
                }
            }
            assert(pair_views(rest_before) =~= pair_views(rest@).push(xv));
            assert(pair_views(rest@) =~= vv.take(rest@.len() as int));
        }
    }
    assert(vv.skip(0) =~= vv);
    out
}

/// One line of the links block: `[key]: url`.
pub open spec fn link_line(p: (Seq<char>, Seq<char>)) -> Seq<char> {
    "["@ + p.0 + "]: "@ + p.1
}

/// The links block: nothing without links, else the lines after an empty
/// comment line.
pub open spec fn links_block(s: Seq<(Seq<char>, Seq<char>)>) -> Seq<char> {
    if s.len() == 0 {
        seq![]
    } else {
        "\n    ///\n    /// "@ + joined(s.map_values(|p: (Seq<char>, Seq<char>)| link_line(p)), "\n    /// "@)
    }
}

/// The note that points at a sibling method.
pub open spec fn sibling_note(sibling: Option<Seq<char>>) -> Seq<char> {
    match sibling {
        Some(s) => "\n    /// \n    /// See also: [`"@ + upper_first(s) + "`](crate::payloads::"@ + upper_first(s) + ")"@,
        None => seq![],
    }
}

/// A rendered documentation comment: the text as comment lines, the sibling
/// note, and the links in the order `s` (sorted by key where it is used).
pub open spec fn doc_text(md: Seq<char>, sibling: Option<Seq<char>>, s: Seq<(Seq<char>, Seq<char>)>) -> Seq<char> {
    "    /// "@ + replaced(md, "\n"@, "\n    /// "@) + sibling_note(sibling) + links_block(s)
}

/// Renders a documentation text as a comment, with a note on the sibling
/// method if there is one and the links sorted by key.
pub fn render_doc(doc: &Doc, sibling: Option<&str>) -> (r: String)
    ensures
        r@ == doc_text(
            doc.md@,
            match sibling {
                Some(x) => Some(x@),
                None => None,
            },
            sort_by_key(pair_views(doc.md_links@)),
        ),
{
    let mut copy: Vec<(String, String)> = Vec::new();
    let mut i: usize = 0;
    while i < doc.md_links.len()
        invariant
            i <= doc.md_links@.len(),
            copy@.len() == i,
            pair_views(copy@) == pair_views(doc.md_links@.take(i as int)),
        decreases doc.md_links@.len() - i,
    {
        let a = doc.md_links[i].0.clone();
        let b = doc.md_links[i].1.clone();
        assert(a@ == doc.md_links@[i as int].0@ && b@ == doc.md_links@[i as int].1@);
        let ghost oc = copy@;
        copy.push((a, b));
        assert(pair_views(copy@) =~= pair_views(oc).push((a@, b@)));
        assert(doc.md_links@.take(i + 1) =~= doc.md_links@.take(i as int).push(doc.md_links@[i as int]));
        assert(pair_views(doc.md_links@.take(i + 1)) =~= pair_views(doc.md_links@.take(i as int)).push((a@, b@)));
        assert(pair_views(copy@) =~= pair_views(doc.md_links@.take(i + 1)));
        i = i + 1;
    }
    assert(doc.md_links@.take(doc.md_links@.len() as int) =~= doc.md_links@);
    let sorted = sort_links(copy);
    let ghost s = pair_views(sorted@);
    let mut lines: Vec<String> = Vec::new();
    let mut k: usize = 0;
    while k < sorted.len()
        invariant
            s == pair_views(sorted@),
            k <= sorted@.len(),
            lines@.len() == k,
            crate::text::views(lines@) == s.take(k as int).map_values(|p: (Seq<char>, Seq<char>)| link_line(p)),
        decreases sorted@.len() - k,
    {
        let line = cat(cat(cat("[", sorted[k].0.as_str()).as_str(), "]: ").as_str(), sorted[k].1.as_str());
        assert(s[k as int] == (sorted@[k as int].0@, sorted@[k as int].1@));
        assert(line@ == link_line(s[k as int]));
        let ghost ol = lines@;
        lines.push(line);
        assert(crate::text::views(lines@) =~= crate::text::views(ol).push(line@));
        assert(s.take(k + 1) =~= s.take(k as int).push(s[k as int]));
        assert(crate::text::views(lines@) =~= s.take(k + 1).map_values(|p: (Seq<char>, Seq<char>)| link_line(p)));
        k = k + 1;
    }
    assert(s.take(s.len() as int) =~= s);
    let links = if sorted.len() == 0 {
        String::new()
    } else {
        let l = join(&lines, "\n    /// ");
        cat("\n    ///\n    /// ", l.as_str())
    };
    let note = match sibling {
        Some(x) => {
            let up = upper_first_exec(x);
            let a = cat("\n    /// \n    /// See also: [`", up.as_str());
            let b = cat(a.as_str(), "`](crate::payloads::");
            let c = cat(b.as_str(), up.as_str());
            cat(c.as_str(), ")")
        },
        None => String::new(),
    };
    let body = replace_all(doc.md.as_str(), "\n", "\n    /// ");
    let r = cat(cat(cat("    /// ", body.as_str()).as_str(), note.as_str()).as_str(), links.as_str());
    r
}

} // verus!
