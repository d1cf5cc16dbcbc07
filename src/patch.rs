//! Rules that patch the schema's documentation before generation.

use vstd::prelude::*;
use crate::schema::{links_map, links_unique, lemma_links_dom, lemma_links_index, Doc, Method, Param, Schema};
use crate::text::{char_upper, occurs_at, replaced, str_eq, starts_with, contains_char, cat, owned, replace_all, to_uppercase};

verus! {

/// What `char::is_lowercase` says of a character.
pub uninterp spec fn is_lower(c: char) -> bool;

/// Relies on `char::is_lowercase`: whether the character is lower case, which
/// depends on the character alone.
#[verifier::external_body]
fn char_is_lower(c: char) -> (r: bool)
    ensures
        r == is_lower(c),
{
    c.is_lowercase()
}

/// Links into the upstream API reference start with this.
pub open spec fn api_anchor() -> Seq<char> {
    "https://core.telegram.org/bots/api#"@
}

/// A key made of one word: not empty, and without `-`, `_`, `.` or a space.
pub open spec fn is_plain_key(k: Seq<char>) -> bool {
    k.len() > 0 && !k.contains('-') && !k.contains('_') && !k.contains('.') && !k.contains(' ')
}

/// The link points into the upstream reference under a one-word key.
pub open spec fn qualifies(k: Seq<char>, v: Seq<char>) -> bool {
    occurs_at(v, api_anchor(), 0) && is_plain_key(k)
}

/// Lower-case words that name no method.
pub open spec fn is_generic_word(k: Seq<char>) -> bool {
    k == "update"@ || k == "games"@ || k == "videos"@ || k == "photos"@
}

/// The one key with a target of its own.
pub open spec fn is_unbanned(k: Seq<char>) -> bool {
    k == "unbanned"@
}

/// A qualifying key names a method (else it names a type).
pub open spec fn names_method(k: Seq<char>) -> bool {
    is_lower(k[0]) && !is_generic_word(k)
}

/// The method's type name: the key with its first character upper-cased.
pub open spec fn method_type_name(k: Seq<char>) -> Seq<char> {
    char_upper(k[0]) + k.drop_first()
}

/// The new URL of a qualifying link.
pub open spec fn rewritten_url(k: Seq<char>) -> Seq<char> {
    if is_unbanned(k) {
        "crate::payloads::UnbanChatMember"@
    } else if names_method(k) {
        "crate::payloads::"@ + method_type_name(k)
    } else {
        "crate::types::"@ + k
    }
}

/// The link table with the URL of each qualifying link rewritten.
pub open spec fn rewritten_links(m: Map<Seq<char>, Seq<char>>) -> Map<Seq<char>, Seq<char>> {
    Map::new(
        |k: Seq<char>| m.contains_key(k),
        |k: Seq<char>|
            if qualifies(k, m[k]) {
                rewritten_url(k)
            } else {
                m[k]
            },
    )
}

/// The keys to move, each with the name that it is to show: first the
/// qualifying keys that name types, then those that name methods, each in
/// table order.
pub open spec fn link_moves(l: Seq<(String, String)>, methods: bool) -> Seq<(Seq<char>, Seq<char>)>
    decreases l.len(),
{
    if l.len() == 0 {
        seq![]
    } else {
        let r = link_moves(l.drop_last(), methods);
        let k = l.last().0@;
        if qualifies(k, l.last().1@) && !is_unbanned(k) && names_method(k) == methods {
            r.push((k, if methods { method_type_name(k) } else { k }))
        } else {
            r
        }
    }
}

/// `[name]` for a name.
pub open spec fn bracketed(n: Seq<char>) -> Seq<char> {
    "["@ + n + "]"@
}

/// `` `name` `` for a name.
pub open spec fn ticked(n: Seq<char>) -> Seq<char> {
    "`"@ + n + "`"@
}

/// The text and links after each move in turn: the key's references in the
/// text show the target name in backticks, and the link moves to that key.
pub open spec fn apply_moves(
    md: Seq<char>,
    m: Map<Seq<char>, Seq<char>>,
    moves: Seq<(Seq<char>, Seq<char>)>,
) -> (Seq<char>, Map<Seq<char>, Seq<char>>)
    decreases moves.len(),
{
    if moves.len() == 0 {
        (md, m)
    } else {
        let (md2, m2) = apply_moves(md, m, moves.drop_last());
        let (k, t) = moves.last();
        if m2.contains_key(k) {
            (
                replaced(md2, bracketed(k), "["@ + ticked(t) + "]"@),
                m2.remove(k).insert(ticked(t), m2[k]),
            )
        } else {
            (md2, m2)
        }
    }
}

/// What cross-link rewriting makes of a documentation text.
pub open spec fn intra_linked(d: Doc) -> (Seq<char>, Map<Seq<char>, Seq<char>>) {
    apply_moves(
        d.md@,
        rewritten_links(d.links()),
        link_moves(d.md_links@, false) + link_moves(d.md_links@, true),
    )
}

fn qualifies_exec(k: &str, v: &str) -> (r: bool)
    ensures
        r == qualifies(k@, v@),
{
    let anchor = "https://core.telegram.org/bots/api#";
    k.unicode_len() > 0 && starts_with(v, anchor) && !contains_char(k, '-') && !contains_char(k, '_')
        && !contains_char(k, '.') && !contains_char(k, ' ')
}

fn is_generic_word_exec(k: &str) -> (r: bool)
    ensures
        r == is_generic_word(k@),
{
    str_eq(k, "update") || str_eq(k, "games") || str_eq(k, "videos") || str_eq(k, "photos")
}

/// Points links into the upstream API reference at the generated items
/// instead: a key that starts in lower case names a method, any other a type
/// (one fixed key excepted), and the text refers to them in backticks.
pub fn intra_links(doc: &mut Doc)
    requires
        old(doc).wf(),
    ensures
        final(doc).wf(),
        (final(doc).md@, final(doc).links()) == intra_linked(*old(doc)),
{
    let ghost l0 = doc.md_links@;
    let ghost m0 = doc.links();
    let mut types: Vec<(String, String)> = Vec::new();
    let mut methods: Vec<(String, String)> = Vec::new();
    let mut i: usize = 0;
    while i < doc.md_links.len()
        invariant
            doc.md == old(doc).md,
            doc.md_links@.len() == l0.len(),
            l0 == old(doc).md_links@,
            links_unique(l0),
            m0 == links_map(l0),
            i <= l0.len(),
            forall|j: int| 0 <= j < l0.len() ==> (#[trigger] doc.md_links@[j]).0@ == l0[j].0@,
            forall|j: int|
                0 <= j < l0.len() ==> (#[trigger] doc.md_links@[j]).1@ == if j < i && qualifies(
                    l0[j].0@,
                    l0[j].1@,
                ) {
                    rewritten_url(l0[j].0@)
                } else {
                    l0[j].1@
                },
            types@.map_values(|p: (String, String)| (p.0@, p.1@)) == link_moves(l0.take(i as int), false),
            methods@.map_values(|p: (String, String)| (p.0@, p.1@)) == link_moves(l0.take(i as int), true),
        decreases l0.len() - i,
    {
        assert(l0.take(i + 1).drop_last() =~= l0.take(i as int));
        let k = doc.md_links[i].0.clone();
        let q = qualifies_exec(k.as_str(), doc.md_links[i].1.as_str());
        if q {
            let c = k.as_str().get_char(0);
            let v = if str_eq(k.as_str(), "unbanned") {
                owned("crate::payloads::UnbanChatMember")
            } else if char_is_lower(c) && !is_generic_word_exec(k.as_str()) {
                let name = to_uppercase(k.as_str());
                methods.push((k.clone(), name.clone()));
                cat("crate::payloads::", name.as_str())
            } else {
                types.push((k.clone(), k.clone()));
                cat("crate::types::", k.as_str())
            };
            doc.md_links.set(i, (k, v));
        }
        assert(types@.map_values(|p: (String, String)| (p.0@, p.1@)) =~= link_moves(l0.take(i + 1), false));
        assert(methods@.map_values(|p: (String, String)| (p.0@, p.1@)) =~= link_moves(l0.take(i + 1), true));
        i = i + 1;
    }
    assert(l0.take(l0.len() as int) =~= l0);
    proof {
        let l1 = doc.md_links@;
        assert forall|a: int, b: int| 0 <= a < l1.len() && 0 <= b < l1.len() && a != b implies l1[a].0@ != l1[b].0@ by {
            assert(l1[a].0@ == l0[a].0@ && l1[b].0@ == l0[b].0@);
        }
        let r = rewritten_links(m0);
        assert forall|k: Seq<char>| links_map(l1).contains_key(k) <==> r.contains_key(k) by {
            if links_map(l1).contains_key(k) {
                lemma_links_dom(l1, k);
                let j = choose|j: int| 0 <= j < l1.len() && (#[trigger] l1[j]).0@ == k;
                lemma_links_index(l0, j);
            }
            if r.contains_key(k) {
                lemma_links_dom(l0, k);
                let j = choose|j: int| 0 <= j < l0.len() && (#[trigger] l0[j]).0@ == k;
                lemma_links_index(l1, j);
            }
        }
        assert forall|k: Seq<char>| #[trigger] links_map(l1).contains_key(k) implies links_map(l1)[k] == r[k] by {
            lemma_links_dom(l1, k);
            let j = choose|j: int| 0 <= j < l1.len() && (#[trigger] l1[j]).0@ == k;
            lemma_links_index(l1, j);
            lemma_links_index(l0, j);
        }
        assert(links_map(l1) =~= r);
    }
    let ghost all = types@.map_values(|p: (String, String)| (p.0@, p.1@)) + methods@.map_values(|p: (String, String)| (p.0@, p.1@));
    let ghost md0 = doc.md@;
    let ghost r0 = doc.links();
    let mut moves = types;
    moves.append(&mut methods);
    assert(moves@.map_values(|p: (String, String)| (p.0@, p.1@)) =~= all);
    let mut j: usize = 0;
    assert(all.take(0) =~= Seq::<(Seq<char>, Seq<char>)>::empty());
    while j < moves.len()
        invariant
            doc.wf(),
            moves@.map_values(|p: (String, String)| (p.0@, p.1@)) == all,
            j <= moves@.len(),
            (doc.md@, doc.links()) == apply_moves(md0, r0, all.take(j as int)),
        decreases moves@.len() - j,
    {
        assert(all.take(j + 1).drop_last() =~= all.take(j as int));
        let k = moves[j].0.as_str();
        let t = moves[j].1.as_str();
        match doc.remove_link(k) {
            Some(value) => {
                let from = cat(cat("[", k).as_str(), "]");
                let tk = cat(cat("`", t).as_str(), "`");
                let to = cat(cat("[", tk.as_str()).as_str(), "]");
                doc.md = replace_all(doc.md.as_str(), from.as_str(), to.as_str());
                doc.set_link(tk, value);
            },
            None => {},
        }
        j = j + 1;
    }
    assert(all.take(all.len() as int) =~= all);
}


/// Which documentation texts a rule applies to. A name filter of `None`
/// matches every name.
pub enum Target {
    /// The method's own text and those of all its parameters.
    Any { method_name: Option<String> },
    /// The method's own text.
    Method(Option<String>),
    /// The texts of the parameters.
    Field { method_name: Option<String>, field_name: Option<String> },
}

/// A transformation of a documentation text that code carries out.
pub enum CustomPatch {
    /// Cross-link rewriting, see [`intra_links`].
    IntraLinks,
}

/// What a rule does to a documentation text.
pub enum Patch {
    /// Sets the URL of an existing link.
    ReplaceLink { name: String, value: String },
    /// Adds a link, or sets its URL.
    AddLink { name: String, value: String },
    /// Removes a link if it is there.
    RemoveLink { name: String },
    /// Replaces the whole text, which must read exactly `text`.
    FullReplace { text: String, with: String },
    /// Replaces every occurrence of `text`.
    Replace { text: String, with: String },
    /// Runs a transformation.
    Custom(CustomPatch),
}

/// A rule that no longer fits the schema.
#[derive(Debug, PartialEq, Eq, Structural)]
pub enum PatchError {
    /// An exactly targeted text lacks the link to replace.
    MissingLink,
    /// The text is not the one that a full replacement expects.
    StaleText,
}

/// The filter lets the name through.
pub open spec fn filter_matches(f: Option<String>, name: Seq<char>) -> bool {
    match f {
        Some(m) => m@ == name,
        None => true,
    }
}

fn filter_matches_exec(f: &Option<String>, name: &str) -> (r: bool)
    ensures
        r == filter_matches(*f, name@),
{
    match f {
        Some(m) => str_eq(m.as_str(), name),
        None => true,
    }
}

impl Target {
    /// The target names exactly one text.
    pub open spec fn exact(&self) -> bool {
        match *self {
            Target::Method(m) => m is Some,
            Target::Field { method_name, field_name } => method_name is Some && field_name is Some,
            Target::Any { .. } => false,
        }
    }

    /// The target names exactly one method (and field): a missing link is then
    /// an error rather than nothing to do.
    pub fn is_exact(&self) -> (r: bool)
        ensures
            r == self.exact(),
    {
        match self {
            Target::Method(m) => m.is_some(),
            Target::Field { method_name, field_name } => method_name.is_some()
                && field_name.is_some(),
            Target::Any { method_name: _ } => false,
        }
    }

    /// The rule applies to the text of the method `m` (`p` is `None`) or of its
    /// parameter `p`.
    pub open spec fn hits(&self, m: Seq<char>, p: Option<Seq<char>>) -> bool {
        match *self {
            Target::Any { method_name } => filter_matches(method_name, m),
            Target::Method(f) => p is None && filter_matches(f, m),
            Target::Field { method_name, field_name } => p matches Some(pn) && filter_matches(
                method_name,
                m,
            ) && filter_matches(field_name, pn),
        }
    }
}

/// The text and links after a patch, or `None` where the patch's
/// precondition fails.
pub open spec fn patch_outcome(d: Doc, patch: Patch, key: Target) -> Option<(Seq<char>, Map<Seq<char>, Seq<char>>)> {
    match patch {
        Patch::ReplaceLink { name, value } => if d.links().contains_key(name@) {
            Some((d.md@, d.links().insert(name@, value@)))
        } else if key.exact() {
            None
        } else {
            Some((d.md@, d.links()))
        },
        Patch::AddLink { name, value } => Some((d.md@, d.links().insert(name@, value@))),
        Patch::RemoveLink { name } => Some((d.md@, d.links().remove(name@))),
        Patch::FullReplace { text, with } => if d.md@ == text@ {
            Some((with@, d.links()))
        } else {
            None
        },
        Patch::Replace { text, with } => Some((replaced(d.md@, text@, with@), d.links())),
        Patch::Custom(CustomPatch::IntraLinks) => Some(intra_linked(d)),
    }
}

/// The error that a patch fails with.
pub open spec fn patch_error(patch: Patch) -> PatchError {
    match patch {
        Patch::FullReplace { .. } => PatchError::StaleText,
        _ => PatchError::MissingLink,
    }
}

impl Doc {
    /// Applies one patch. Fails, leaving the text as it was, where a full
    /// replacement finds another text, or where an exactly targeted text
    /// lacks the link to replace.
    pub fn patch(&mut self, patch: &Patch, key: &Target) -> (r: Result<(), PatchError>)
        requires
            old(self).wf(),
        ensures
            final(self).wf(),
            r is Ok <==> patch_outcome(*old(self), *patch, *key) is Some,
            r is Ok ==> patch_outcome(*old(self), *patch, *key) == Some(
                (final(self).md@, final(self).links()),
            ),
            r matches Err(e) ==> e == patch_error(*patch) && *final(self) == *old(self),
    {
        match patch {
            Patch::ReplaceLink { name, value } => {
                match self.find_link(name.as_str()) {
                    Some(_) => {
                        self.set_link(name.clone(), value.clone());
                        Ok(())
                    },
                    None => {
                        if key.is_exact() {
                            Err(PatchError::MissingLink)
                        } else {
                            Ok(())
                        }
                    },
                }
            },
            Patch::AddLink { name, value } => {
                self.set_link(name.clone(), value.clone());
                Ok(())
            },
            Patch::RemoveLink { name } => {
                let _ = self.remove_link(name.as_str());
                Ok(())
            },
            Patch::FullReplace { text, with } => {
                if !str_eq(self.md.as_str(), text.as_str()) {
                    return Err(PatchError::StaleText);
                }
                self.md = with.clone();
                Ok(())
            },
            Patch::Replace { text, with } => {
                self.md = replace_all(self.md.as_str(), text.as_str(), with.as_str());
                Ok(())
            },
            Patch::Custom(CustomPatch::IntraLinks) => {
                intra_links(self);
                Ok(())
            },
        }
    }
}

/// A full replacement whose new text differs from the one it expects fails
/// when it meets its own result: applying it twice is an error.
pub proof fn lemma_full_replace_twice(d0: Doc, d1: Doc, text: String, with: String, key: Target)
    requires
        text@ != with@,
        patch_outcome(d0, Patch::FullReplace { text, with }, key) == Some((d1.md@, d1.links())),
    ensures
        patch_outcome(d1, Patch::FullReplace { text, with }, key) is None,
{
}


/// The view of an optional name.
pub open spec fn opt_view(p: Option<String>) -> Option<Seq<char>> {
    match p {
        Some(s) => Some(s@),
        None => None,
    }
}

/// `d1` is what the rules that hit the text of method `m` (or of its
/// parameter `p`) make of `d0`, applied in order.
pub open spec fn chained(
    d0: Doc,
    d1: Doc,
    rules: Seq<(Target, Patch)>,
    m: Seq<char>,
    p: Option<Seq<char>>,
) -> bool
    decreases rules.len(),
{
    if rules.len() == 0 {
        d1.md@ == d0.md@ && d1.links() == d0.links()
    } else if !rules.last().0.hits(m, p) {
        chained(d0, d1, rules.drop_last(), m, p)
    } else {
        exists|mid: Doc|
            chained(d0, mid, rules.drop_last(), m, p) && #[trigger] patch_outcome(
                mid,
                rules.last().1,
                rules.last().0,
            ) == Some((d1.md@, d1.links()))
    }
}

/// Some rule that hits the text fails on what the rules before it made of it.
pub open spec fn chain_fails(d0: Doc, rules: Seq<(Target, Patch)>, m: Seq<char>, p: Option<Seq<char>>) -> bool {
    exists|i: int, mid: Doc|
        0 <= i < rules.len() && rules[i].0.hits(m, p) && chained(d0, mid, rules.take(i), m, p)
            && #[trigger] patch_outcome(mid, rules[i].1, rules[i].0) is None
}

/// Applies, in order, the rules that hit the text of method `m` (or of its
/// parameter `p`); stops at the first that fails.
fn patch_doc(d: &mut Doc, rules: &Vec<(Target, Patch)>, m: &str, p: &Option<String>) -> (r: Result<(), PatchError>)
    requires
        old(d).wf(),
    ensures
        final(d).wf(),
        r is Ok ==> chained(*old(d), *final(d), rules@, m@, opt_view(*p)),
        r is Err ==> chain_fails(*old(d), rules@, m@, opt_view(*p)),
{
    let ghost d0 = *d;
    let ghost pv = opt_view(*p);
    let mut i: usize = 0;
    assert(rules@.take(0) =~= Seq::<(Target, Patch)>::empty());
    while i < rules.len()
        invariant
            d.wf(),
            d0 == *old(d),
            pv == opt_view(*p),
            i <= rules@.len(),
            chained(d0, *d, rules@.take(i as int), m@, pv),
        decreases rules@.len() - i,
    {
        assert(rules@.take(i + 1).drop_last() =~= rules@.take(i as int));
        let (t, pa) = &rules[i];
        let hit = match t {
            Target::Any { method_name } => filter_matches_exec(method_name, m),
            Target::Method(f) => p.is_none() && filter_matches_exec(f, m),
            Target::Field { method_name, field_name } => match p {
                Some(pn) => filter_matches_exec(method_name, m) && filter_matches_exec(
                    field_name,
                    pn.as_str(),
                ),
                None => false,
            },
        };
        if hit {
            let ghost mid = *d;
            match d.patch(pa, t) {
                Ok(()) => {
                    assert(patch_outcome(mid, rules@.take(i + 1).last().1, rules@.take(i + 1).last().0)
                        == Some((d.md@, d.links())));
                },
                Err(e) => {
                    assert(patch_outcome(mid, rules@[i as int].1, rules@[i as int].0) is None);
                    assert(chained(d0, mid, rules@.take(i as int), m@, pv));
                    return Err(e);
                },
            }
        }
        i = i + 1;
    }
    assert(rules@.take(rules@.len() as int) =~= rules@);
    Ok(())
}

/// The identifier that a parameter name is written as: `type` is a keyword
/// and becomes `r#type`.
pub open spec fn escaped(s: Seq<char>) -> Seq<char> {
    if s == "type"@ {
        "r#type"@
    } else {
        s
    }
}

/// Escapes a parameter name that is a keyword.
pub fn escape_kw(s: &mut String)
    ensures
        final(s)@ == escaped(old(s)@),
{
    if str_eq(s.as_str(), "type") {
        *s = cat("r#", s.as_str());
        proof {
            reveal_strlit("r#");
            reveal_strlit("r#type");
            reveal_strlit("type");
            assert("r#"@ + "type"@ =~= "r#type"@);
        }
    }
}

/// Every documentation text of the method has unique link keys.
pub open spec fn method_wf(m: Method) -> bool {
    m.doc.wf() && forall|i: int| 0 <= i < m.params@.len() ==> (#[trigger] m.params@[i]).descr.wf()
}

/// Every documentation text of the schema has unique link keys.
pub open spec fn schema_wf(s: Schema) -> bool {
    forall|i: int| 0 <= i < s.methods@.len() ==> method_wf(#[trigger] s.methods@[i])
}

/// `n` is the method `o` with its parameter names escaped and the rules
/// applied to its texts; nothing else changes.
pub open spec fn method_patched(o: Method, n: Method, rules: Seq<(Target, Patch)>) -> bool {
    &&& n.names == o.names
    &&& n.return_ty == o.return_ty
    &&& n.tg_doc == o.tg_doc
    &&& n.tg_category == o.tg_category
    &&& n.notes == o.notes
    &&& n.sibling == o.sibling
    &&& n.params@.len() == o.params@.len()
    &&& method_wf(n)
    &&& chained(o.doc, n.doc, rules, o.names.0@, None)
    &&& forall|i: int|
        0 <= i < o.params@.len() ==> {
            let (op, np) = (#[trigger] o.params@[i], n.params@[i]);
            &&& np.name@ == escaped(op.name@)
            &&& np.ty == op.ty
            &&& chained(op.descr, np.descr, rules, o.names.0@, Some(escaped(op.name@)))
        }
}

/// Some rule fails on a text of the method.
pub open spec fn method_fails(o: Method, rules: Seq<(Target, Patch)>) -> bool {
    chain_fails(o.doc, rules, o.names.0@, None) || exists|i: int|
        0 <= i < o.params@.len() && chain_fails(
            (#[trigger] o.params@[i]).descr,
            rules,
            o.names.0@,
            Some(escaped(o.params@[i].name@)),
        )
}

fn patch_method(m: Method, rules: &Vec<(Target, Patch)>) -> (r: Result<Method, PatchError>)
    requires
        method_wf(m),
    ensures
        r matches Ok(n) ==> method_patched(m, n, rules@),
        r is Err ==> method_fails(m, rules@),
{
    let ghost o = m;
    let Method { names, return_ty, mut doc, tg_doc, tg_category, notes, mut params, sibling } = m;
    let ghost op = params@;
    match patch_doc(&mut doc, rules, names.0.as_str(), &None) {
        Ok(()) => {},
        Err(e) => {
            return Err(e);
        },
    }
    let mut out: Vec<Param> = Vec::new();
    let mut i: usize = 0;
    let n = params.len();
    while params.len() > 0
        invariant
            o == m,
            n == op.len(),
            doc.wf(),
            chained(o.doc, doc, rules@, o.names.0@, None),
            return_ty == o.return_ty,
            tg_doc == o.tg_doc,
            tg_category == o.tg_category,
            notes == o.notes,
            sibling == o.sibling,
            op == o.params@,
            names == o.names,
            params@ == op.skip(i as int),
            i <= op.len(),
            out@.len() == i,
            method_wf(o),
            forall|j: int|
                0 <= j < i ==> {
                    let (a, b) = (#[trigger] op[j], out@[j]);
                    &&& b.name@ == escaped(a.name@)
                    &&& b.ty == a.ty
                    &&& b.descr.wf()
                    &&& chained(a.descr, b.descr, rules@, o.names.0@, Some(escaped(a.name@)))
                },
        decreases op.len() - i,
    {
        assert(op.skip(i as int).remove(0) =~= op.skip(i + 1));
        assert(op.skip(i as int)[0] == op[i as int]);
        assert(i < op.len());
        let Param { mut name, ty, mut descr } = params.remove(0);
        assert(o.params@[i as int].descr.wf());
        escape_kw(&mut name);
        let pn = Some(name.clone());
        match patch_doc(&mut descr, rules, names.0.as_str(), &pn) {
            Ok(()) => {},
            Err(e) => {
                assert(chain_fails(o.params@[i as int].descr, rules@, o.names.0@, Some(escaped(o.params@[i as int].name@))));
                assert(method_fails(o, rules@));
                return Err(e);
            },
        }
        out.push(Param { name, ty, descr });
        i = i + 1;
    }
    assert(out@.len() == op.len());
    let r = Method { names, return_ty, doc, tg_doc, tg_category, notes, params: out, sibling };
    assert forall|j: int| 0 <= j < r.params@.len() implies (#[trigger] r.params@[j]).descr.wf() by {
        let (a, b) = (op[j], r.params@[j]);
        assert(b.descr.wf());
    }
    assert(chained(o.doc, r.doc, rules@, o.names.0@, None));
    assert(method_patched(o, r, rules@));
    Ok(r)
}

/// `n` is the schema `o` with every method patched by the rules.
pub open spec fn schema_patched(o: Schema, n: Schema, rules: Seq<(Target, Patch)>) -> bool {
    &&& n.api_version == o.api_version
    &&& n.tg_categoryes == o.tg_categoryes
    &&& n.methods@.len() == o.methods@.len()
    &&& forall|i: int|
        0 <= i < o.methods@.len() ==> method_patched(#[trigger] o.methods@[i], n.methods@[i], rules)
}

/// Some rule fails on some text of the schema.
pub open spec fn schema_fails(o: Schema, rules: Seq<(Target, Patch)>) -> bool {
    exists|i: int| 0 <= i < o.methods@.len() && method_fails(#[trigger] o.methods@[i], rules)
}

/// Escapes the parameter names of every method, then applies the rules in
/// order to every text that they hit. Fails on the first rule that no longer
/// fits.
pub fn patch_with(schema: Schema, rules: &Vec<(Target, Patch)>) -> (r: Result<Schema, PatchError>)
    requires
        schema_wf(schema),
    ensures
        r matches Ok(n) ==> schema_patched(schema, n, rules@),
        r is Err ==> schema_fails(schema, rules@),
{
    let ghost o = schema;
    let Schema { api_version, mut methods, tg_categoryes } = schema;
    let ghost om = methods@;
    let mut out: Vec<Method> = Vec::new();
    let mut i: usize = 0;
    let n = methods.len();
    while methods.len() > 0
        invariant
            o == schema,
            n == om.len(),
            om == o.methods@,
            schema_wf(o),
            methods@ == om.skip(i as int),
            i <= om.len(),
            out@.len() == i,
            forall|j: int| 0 <= j < i ==> method_patched(#[trigger] om[j], out@[j], rules@),
        decreases om.len() - i,
    {
        assert(om.skip(i as int).remove(0) =~= om.skip(i + 1));
        assert(om.skip(i as int)[0] == om[i as int]);
        assert(i < om.len());
        let m = methods.remove(0);
        assert(method_wf(om[i as int]));
        match patch_method(m, rules) {
            Ok(n) => {
                out.push(n);
            },
            Err(e) => {
                assert(method_fails(om[i as int], rules@));
                assert(schema_fails(o, rules@));
                return Err(e);
            },
        }
        i = i + 1;
    }
    Ok(Schema { api_version, methods: out, tg_categoryes })
}


/// The text of the link to the page on sending files.
pub open spec fn sending_files_key() -> Seq<char> {
    "More info on Sending Files \u{bb}"@
}

/// The sentence that the rule for `addStickerToSet` removes.
pub open spec fn sticker_sentence() -> Seq<char> {
    "You **must** use exactly one of the fields _png\\_sticker_ or _tgs\\_sticker_. "@
}

/// The rules that the generator applies, in order: the link to the page on
/// sending files points at `InputFile`, links into the upstream reference
/// are rewritten, and a sentence about sticker fields goes.
pub open spec fn default_rules(r: Seq<(Target, Patch)>) -> bool {
    &&& r.len() == 3
    &&& r[0].0 matches Target::Any { method_name: None }
    &&& r[0].1 matches Patch::ReplaceLink { name, value } && name@ == sending_files_key()
        && value@ == "crate::types::InputFile"@
    &&& r[1].0 matches Target::Any { method_name: None }
    &&& r[1].1 matches Patch::Custom(CustomPatch::IntraLinks)
    &&& r[2].0 matches Target::Method(Some(m)) && m@ == "addStickerToSet"@
    &&& r[2].1 matches Patch::Replace { text, with } && text@ == sticker_sentence() && with@
        == ""@
}

/// The rules that the generator applies.
pub fn doc_patches() -> (r: Vec<(Target, Patch)>)
    ensures
        default_rules(r@),
{
    let mut r: Vec<(Target, Patch)> = Vec::new();
    r.push(
        (
            Target::Any { method_name: None },
            Patch::ReplaceLink {
                name: owned("More info on Sending Files \u{bb}"),
                value: owned("crate::types::InputFile"),
            },
        ),
    );
    r.push((Target::Any { method_name: None }, Patch::Custom(CustomPatch::IntraLinks)));
    r.push(
        (
            Target::Method(Some(owned("addStickerToSet"))),
            Patch::Replace {
                text: owned("You **must** use exactly one of the fields _png\\_sticker_ or _tgs\\_sticker_. "),
                with: owned(""),
            },
        ),
    );
    r
}

/// Escapes the parameter names of every method and applies the generator's
/// rules to the schema's texts. Fails on the first rule that no longer fits.
pub fn patch_sc(schema: Schema) -> (r: Result<Schema, PatchError>)
    requires
        schema_wf(schema),
    ensures
        exists|rules: Seq<(Target, Patch)>|
            default_rules(rules) && (r matches Ok(n) ==> schema_patched(schema, n, rules)) && (r is Err
                ==> schema_fails(schema, rules)),
{
    let rules = doc_patches();
    let r = patch_with(schema, &rules);
    assert(default_rules(rules@));
    r
}

} // verus!
