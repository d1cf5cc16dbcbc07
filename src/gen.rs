//! The generated payload of each method.

use vstd::prelude::*;
use crate::classify::{convert_for, convert_of, Convert};
use crate::render::{doc_text, pair_views, render_doc, sort_by_key, ty_text};
use crate::schema::{Method, Param, Schema, Type};
use crate::classify::{default_needed, eq_hash_of, eq_hash_suitable, multipart_input_file_fields, multipart_names};
use crate::prefix::{dedup_adjacent, dedup_names, sort_names, sort_seq};
use crate::patch::opt_view;
use crate::text::{str_upper, upper_str};
use crate::text::{cat, joined, owned, replace_all, replaced, str_eq, join, views};

verus! {

/// What a caller may pass, as written after a field's type.
pub open spec fn convert_suffix(c: Convert) -> Seq<char> {
    match c {
        Convert::Id(_) => seq![],
        Convert::Into(_) => " [into]"@,
        Convert::Collect(_) => " [collect]"@,
    }
}

/// The suffix written after a field of a type with this strategy.
pub fn convert_text(c: &Convert) -> (r: String)
    ensures
        r@ == convert_suffix(*c),
{
    match c {
        Convert::Id(_) => String::new(),
        Convert::Into(_) => owned(" [into]"),
        Convert::Collect(_) => owned(" [collect]"),
    }
}

/// Raw types whose fields merge into the enclosing object.
pub open spec fn is_flattened_raw(s: Seq<char>) -> bool {
    s == "InputSticker"@ || s == "TargetMessage"@
}

/// The flatten marker of a field of this type.
pub open spec fn flatten_hint(t: Type) -> Seq<char> {
    match t {
        Type::RawTy(s) => if is_flattened_raw(s@) {
            "\n            #[serde(flatten)]"@
        } else {
            seq![]
        },
        _ => seq![],
    }
}

/// The codec marker of a field of this type: a date travels as a Unix
/// timestamp, with a codec of its own when the field is optional.
pub open spec fn codec_hint(t: Type, optional: bool) -> Seq<char> {
    match t {
        Type::DateTime => if optional {
            "\n            #[serde(with = \"crate::types::serde_opt_date_from_unix_timestamp\")]"@
        } else {
            "\n            #[serde(with = \"crate::types::serde_date_from_unix_timestamp\")]"@
        },
        _ => seq![],
    }
}

/// The rename marker of a field whose identifier carries a trailing `_` to
/// avoid a keyword: the wire name is the identifier without it.
pub open spec fn rename_hint(n: Seq<char>) -> Seq<char> {
    if n.len() > 0 && n.last() == '_' {
        "\n            #[serde(rename = \""@ + n.drop_last() + "\")]"@
    } else {
        seq![]
    }
}

/// The type a field is written with: an optional parameter loses exactly one
/// `Option`.
pub open spec fn field_ty(p: Param, optional: bool) -> Type {
    if optional {
        match p.ty {
            Type::Optional(inner) => *inner,
            _ => p.ty,
        }
    } else {
        p.ty
    }
}

/// One field of a payload: its documentation, markers, name, type and
/// conversion suffix.
pub open spec fn field_text(p: Param, optional: bool) -> Seq<char> {
    let t = field_ty(p, optional);
    "        "@ + replaced(
        doc_text(p.descr.md@, None, sort_by_key(pair_views(p.descr.md_links@))),
        "\n"@,
        "\n        "@,
    ) + flatten_hint(t) + codec_hint(t, optional) + rename_hint(p.name@) + "\n            pub "@
        + p.name@ + ": "@ + ty_text(t) + convert_suffix(convert_of(t)) + ","@
}

/// The parameters that are optional (`true`) or required (`false`), in order.
pub open spec fn partition(ps: Seq<Param>, optional: bool) -> Seq<Param>
    decreases ps.len(),
{
    if ps.len() == 0 {
        seq![]
    } else {
        let r = partition(ps.drop_last(), optional);
        if ps.last().ty.is_optional() == optional {
            r.push(ps.last())
        } else {
            r
        }
    }
}

/// The fields of one partition, one per line.
pub open spec fn fields_text(ps: Seq<Param>, optional: bool) -> Seq<char> {
    joined(partition(ps, optional).map_values(|p: Param| field_text(p, optional)), "\n"@)
}

fn flatten_text(t: &Type) -> (r: String)
    ensures
        r@ == flatten_hint(*t),
{
    match t {
        Type::RawTy(s) => {
            if str_eq(s.as_str(), "InputSticker") || str_eq(s.as_str(), "TargetMessage") {
                owned("\n            #[serde(flatten)]")
            } else {
                String::new()
            }
        },
        _ => String::new(),
    }
}

fn codec_text(t: &Type, optional: bool) -> (r: String)
    ensures
        r@ == codec_hint(*t, optional),
{
    match t {
        Type::DateTime => {
            if optional {
                owned(
                    "\n            #[serde(with = \"crate::types::serde_opt_date_from_unix_timestamp\")]",
                )
            } else {
                owned("\n            #[serde(with = \"crate::types::serde_date_from_unix_timestamp\")]")
            }
        },
        _ => String::new(),
    }
}

fn rename_text(n: &str) -> (r: String)
    ensures
        r@ == rename_hint(n@),
{
    let len = n.unicode_len();
    if len > 0 && n.get_char(len - 1) == '_' {
        let stem = n.substring_char(0, len - 1);
        assert(stem@ =~= n@.drop_last());
        cat(cat("\n            #[serde(rename = \"", stem).as_str(), "\")]")
    } else {
        String::new()
    }
}

fn field(p: &Param, optional: bool) -> (r: String)
    ensures
        r@ == field_text(*p, optional),
{
    let t = if optional {
        match &p.ty {
            Type::Optional(inner) => &**inner,
            _ => &p.ty,
        }
    } else {
        &p.ty
    };
    let doc = replace_all(render_doc(&p.descr, None).as_str(), "\n", "\n        ");
    let mut r = cat("        ", doc.as_str());
    r = cat(r.as_str(), flatten_text(t).as_str());
    r = cat(r.as_str(), codec_text(t, optional).as_str());
    r = cat(r.as_str(), rename_text(p.name.as_str()).as_str());
    r = cat(r.as_str(), "\n            pub ");
    r = cat(r.as_str(), p.name.as_str());
    r = cat(r.as_str(), ": ");
    r = cat(r.as_str(), t.to_text().as_str());
    r = cat(r.as_str(), convert_text(&convert_for(t)).as_str());
    cat(r.as_str(), ",")
}

/// The fields of the required (`optional` false) or optional parameters, one
/// per line; an optional parameter is written with its type inside `Option`.
pub fn params(ps: &Vec<Param>, optional: bool) -> (r: String)
    ensures
        r@ == fields_text(ps@, optional),
{
    let mut lines: Vec<String> = Vec::new();
    let mut i: usize = 0;
    while i < ps.len()
        invariant
            i <= ps@.len(),
            views(lines@) == partition(ps@.take(i as int), optional).map_values(
                |p: Param| field_text(p, optional),
            ),
        decreases ps@.len() - i,
    {
        assert(ps@.take(i + 1).drop_last() =~= ps@.take(i as int));
        let is_opt = match &ps[i].ty {
            Type::Optional(_) => true,
            _ => false,
        };
        if is_opt == optional {
            let ghost o = lines@;
            let f = field(&ps[i], optional);
            lines.push(f);
            assert(views(lines@) =~= views(o).push(f@));
        }
        assert(views(lines@) =~= partition(ps@.take(i + 1), optional).map_values(
            |p: Param| field_text(p, optional),
        ));
        i = i + 1;
    }
    assert(ps@.take(ps@.len() as int) =~= ps@);
    join(&lines, "\n")
}

/// Each parameter lands in exactly one of the two partitions: required and
/// optional together hold the parameters, each once.
pub proof fn lemma_partition_exact(ps: Seq<Param>)
    ensures
        partition(ps, false).to_multiset().add(partition(ps, true).to_multiset()) == ps.to_multiset(),
        partition(ps, false).len() + partition(ps, true).len() == ps.len(),
        forall|i: int|
            0 <= i < partition(ps, true).len() ==> (#[trigger] partition(ps, true)[i]).ty.is_optional(),
        forall|i: int|
            0 <= i < partition(ps, false).len() ==> !(#[trigger] partition(ps, false)[i]).ty.is_optional(),
    decreases ps.len(),
{
    broadcast use vstd::seq_lib::group_to_multiset_ensures;

    if ps.len() > 0 {
        lemma_partition_exact(ps.drop_last());
        assert(ps =~= ps.drop_last().push(ps.last()));
        let a = partition(ps.drop_last(), false);
        let b = partition(ps.drop_last(), true);
        if ps.last().ty.is_optional() {
            assert(partition(ps, true) == b.push(ps.last()));
            assert forall|i: int| 0 <= i < b.len() + 1 implies (#[trigger] partition(ps, true)[i]).ty.is_optional() by {
                if i < b.len() {
                    assert(partition(ps, true)[i] == b[i]);
                }
            }
        } else {
            assert(partition(ps, false) == a.push(ps.last()));
            assert forall|i: int| 0 <= i < a.len() + 1 implies !(#[trigger] partition(ps, false)[i]).ty.is_optional() by {
                if i < a.len() {
                    assert(partition(ps, false)[i] == a[i]);
                }
            }
        }
    } else {
        assert(ps.to_multiset() =~= vstd::multiset::Multiset::empty());
    }
}

/// An optional field loses exactly one `Option`: a parameter of type
/// `Option<Option<T>>` is an optional field of type `Option<T>`.
pub proof fn lemma_unwrap_one_level(p: Param, t: Type)
    requires
        p.ty == Type::Optional(Box::new(Type::Optional(Box::new(t)))),
    ensures
        field_ty(p, true) == Type::Optional(Box::new(t)),
        field_ty(p, true).is_optional(),
{
}


/// The import that a type needs from the generated crate, if any.
pub open spec fn crate_use(t: Type) -> Option<Seq<char>>
    decreases t,
{
    match t {
        Type::True => Some("use crate::types::True;"@),
        Type::RawTy(r) => Some("use crate::types::"@ + r@ + ";"@),
        Type::Optional(inner) => crate_use(*inner),
        Type::ArrayOf(inner) => crate_use(*inner),
        _ => None,
    }
}

/// The import that a type needs from another library, if any.
pub open spec fn external_use(t: Type) -> Option<Seq<char>>
    decreases t,
{
    match t {
        Type::Url => Some("use url::Url;"@),
        Type::DateTime => Some("use chrono::{DateTime, Utc};"@),
        Type::Optional(inner) => external_use(*inner),
        Type::ArrayOf(inner) => external_use(*inner),
        _ => None,
    }
}

/// The types that a method mentions: its result, then its parameters'.
pub open spec fn method_types(m: Method) -> Seq<Type> {
    seq![m.return_ty] + m.params@.map_values(|p: Param| p.ty)
}

/// The imports that the types need, from other libraries (`external`) or
/// from the generated crate, in order and with repeats.
pub open spec fn collect_uses(ts: Seq<Type>, external: bool) -> Seq<Seq<char>>
    decreases ts.len(),
{
    if ts.len() == 0 {
        seq![]
    } else {
        let r = collect_uses(ts.drop_last(), external);
        match if external {
            external_use(ts.last())
        } else {
            crate_use(ts.last())
        } {
            Some(u) => r.push(u),
            None => r,
        }
    }
}

/// The import block of a payload: the imports from other libraries (serde's
/// always among them), sorted, once each, one per line; then, if there are
/// any, those from the generated crate, sorted and once each.
pub open spec fn uses_text(m: Method) -> Seq<char> {
    let ts = method_types(m);
    let ext = dedup_adjacent(sort_seq(seq!["use serde::Serialize;"@] + collect_uses(ts, true)));
    let cr = collect_uses(ts, false);
    let e = joined(ext, "\n"@);
    if cr.len() == 0 {
        e
    } else {
        e + "\n\n"@ + joined(dedup_adjacent(sort_seq(cr)), ""@)
    }
}

fn crate_use_exec(t: &Type) -> (r: Option<String>)
    ensures
        r matches Some(u) ==> crate_use(*t) == Some(u@),
        r is None ==> crate_use(*t) is None,
    decreases t,
{
    match t {
        Type::True => Some(owned("use crate::types::True;")),
        Type::RawTy(r) => Some(cat(cat("use crate::types::", r.as_str()).as_str(), ";")),
        Type::Optional(inner) => crate_use_exec(inner),
        Type::ArrayOf(inner) => crate_use_exec(inner),
        Type::U8 | Type::U16 | Type::U32 | Type::I32 | Type::U64 | Type::I64 | Type::F64
        | Type::Bool | Type::Str | Type::Url | Type::DateTime => None,
    }
}

fn external_use_exec(t: &Type) -> (r: Option<String>)
    ensures
        r matches Some(u) ==> external_use(*t) == Some(u@),
        r is None ==> external_use(*t) is None,
    decreases t,
{
    match t {
        Type::Url => Some(owned("use url::Url;")),
        Type::DateTime => Some(owned("use chrono::{DateTime, Utc};")),
        Type::Optional(inner) => external_use_exec(inner),
        Type::ArrayOf(inner) => external_use_exec(inner),
        Type::True | Type::U8 | Type::U16 | Type::U32 | Type::I32 | Type::U64 | Type::I64
        | Type::F64 | Type::Bool | Type::Str | Type::RawTy(_) => None,
    }
}

/// The import block of the method's payload, sorted so that every run gives
/// the same text.
pub fn uses(m: &Method) -> (r: String)
    ensures
        r@ == uses_text(*m),
{
    let ghost ts = method_types(*m);
    let mut ext: Vec<String> = Vec::new();
    ext.push(owned("use serde::Serialize;"));
    let mut cr: Vec<String> = Vec::new();
    let ghost e0 = views(ext@);
    assert(ts.take(1).drop_last() =~= Seq::<Type>::empty());
    assert(ts.take(1).last() == m.return_ty);
    assert(collect_uses(ts.take(1).drop_last(), true) =~= Seq::<Seq<char>>::empty());
    assert(collect_uses(ts.take(1).drop_last(), false) =~= Seq::<Seq<char>>::empty());
    match external_use_exec(&m.return_ty) {
        Some(u) => {
            ext.push(u);
            assert(views(ext@) =~= e0.push(u@));
        },
        None => {},
    }
    match crate_use_exec(&m.return_ty) {
        Some(u) => {
            cr.push(u);
            assert(views(cr@) =~= seq![u@]);
        },
        None => {},
    }
    assert(views(ext@) =~= e0 + collect_uses(ts.take(1), true));
    assert(views(cr@) =~= collect_uses(ts.take(1), false));
    let mut i: usize = 0;
    while i < m.params.len()
        invariant
            ts == method_types(*m),
            i <= m.params@.len(),
            e0 == seq!["use serde::Serialize;"@],
            views(ext@) == e0 + collect_uses(ts.take(i + 1), true),
            views(cr@) == collect_uses(ts.take(i + 1), false),
        decreases m.params@.len() - i,
    {
        assert(ts.take(i + 2).drop_last() =~= ts.take(i + 1));
        assert(ts.take(i + 2).last() == m.params@[i as int].ty);
        let ghost oe = views(ext@);
        let ghost oc = views(cr@);
        match external_use_exec(&m.params[i].ty) {
            Some(u) => {
                ext.push(u);
                assert(views(ext@) =~= oe.push(u@));
            },
            None => {},
        }
        match crate_use_exec(&m.params[i].ty) {
            Some(u) => {
                cr.push(u);
                assert(views(cr@) =~= oc.push(u@));
            },
            None => {},
        }
        assert(views(ext@) =~= e0 + collect_uses(ts.take(i + 2), true));
        i = i + 1;
    }
    assert(ts.take(m.params@.len() + 1 as int) =~= ts);
    let has_crate = cr.len() > 0;
    let ext_sorted = dedup_names(&sort_names(ext));
    let e = join(&ext_sorted, "\n");
    if !has_crate {
        e
    } else {
        let c = join(&dedup_names(&sort_names(cr)), "");
        cat(cat(e.as_str(), "\n\n").as_str(), c.as_str())
    }
}

/// The banner that opens every generated unit; `thing` names the unit
/// ("file", "block", "macro").
pub open spec fn header_text(thing: Seq<char>) -> Seq<char> {
    "// This "@ + thing + " is auto generated by [`cg`] from [`schema`].\n//\n// **DO NOT EDIT THIS "@
        + str_upper(thing)
        + "**,\n//\n// Edit `cg` or `schema` instead.\n// \n// [cg]: https://github.com/teloxide/cg\n// [`schema`]: https://github.com/WaffleLapkin/tg-methods-schema"@
}

/// The banner that opens every generated unit.
pub fn header(thing: &str) -> (r: String)
    ensures
        r@ == header_text(thing@),
{
    let a = cat("// This ", thing);
    let b = cat(a.as_str(), " is auto generated by [`cg`] from [`schema`].\n//\n// **DO NOT EDIT THIS ");
    let c = cat(b.as_str(), upper_str(thing).as_str());
    cat(
        c.as_str(),
        "**,\n//\n// Edit `cg` or `schema` instead.\n// \n// [cg]: https://github.com/teloxide/cg\n// [`schema`]: https://github.com/WaffleLapkin/tg-methods-schema",
    )
}


/// Every parameter is optional, so the payload can be built empty.
pub open spec fn all_optional(ps: Seq<Param>) -> bool {
    forall|i: int| 0 <= i < ps.len() ==> (#[trigger] ps[i]).ty.is_optional()
}

/// Methods whose payloads hold values that cannot be compared or defaulted.
pub open spec fn is_reduced_derive_method(n: Seq<char>) -> bool {
    n == "SendMediaGroup"@ || n == "EditMessageMedia"@ || n == "EditMessageMediaInline"@
}

/// The derive line of a payload: multipart payloads and a few others derive
/// only `Debug`, `Clone` and `Serialize`; the others add `PartialEq`, and
/// `Eq`, `Hash` and `Default` where their parameters allow.
pub open spec fn derive_line(m: Method) -> Seq<char> {
    if multipart_names(m.params@).len() > 0 || is_reduced_derive_method(m.names.1@) {
        "#[derive(Debug, Clone, Serialize)]"@
    } else {
        "#[derive(Debug, PartialEq,"@ + (if eq_hash_of(m.params@) {
            " Eq, Hash,"@
        } else {
            seq![]
        }) + (if all_optional(m.params@) {
            " Default,"@
        } else {
            seq![]
        }) + " Clone, Serialize)]"@
    }
}

/// The multipart marker: the names of the file fields, if there are any.
pub open spec fn multipart_line(m: Method) -> Seq<char> {
    let f = multipart_names(m.params@);
    if f.len() == 0 {
        seq![]
    } else {
        "    @[multipart = "@ + joined(f, ", "@) + "]\n"@
    }
}

/// The timeout marker, which only `get_updates` carries.
pub open spec fn timeout_line(m: Method) -> Seq<char> {
    if m.names.2@ == "get_updates"@ {
        "    @[timeout_secs = timeout]\n"@
    } else {
        seq![]
    }
}

/// The block of required fields, if there are any.
pub open spec fn required_block(m: Method) -> Seq<char> {
    let t = fields_text(m.params@, false);
    if t.len() > 0 {
        "        required {\n"@ + t + "\n        }"@
    } else {
        t
    }
}

/// The block of optional fields, if there are any.
pub open spec fn optional_block(m: Method) -> Seq<char> {
    let t = fields_text(m.params@, true);
    if t.len() > 0 {
        "\n        optional {\n"@ + t + "\n        }"@
    } else {
        t
    }
}

/// The generated source of a method's payload.
pub open spec fn payload_text(m: Method) -> Seq<char> {
    uses_text(m) + "\n\nimpl_payload! {\n"@ + multipart_line(m) + timeout_line(m) + doc_text(
        m.doc.md@,
        opt_view(m.sibling),
        sort_by_key(pair_views(m.doc.md_links@)),
    ) + "\n    "@ + derive_line(m) + "\n    pub "@ + m.names.1@ + " ("@ + m.names.1@ + "Setters) => "@
        + ty_text(m.return_ty) + " {\n"@ + required_block(m) + optional_block(m) + "\n    }\n}\n"@
}

/// The generated source of one method's payload, and the file it goes to.
pub struct Payload {
    pub file_name: String,
    pub content: String,
}

fn is_reduced_derive_exec(n: &str) -> (r: bool)
    ensures
        r == is_reduced_derive_method(n@),
{
    str_eq(n, "SendMediaGroup") || str_eq(n, "EditMessageMedia") || str_eq(n, "EditMessageMediaInline")
}

impl Payload {
    /// The payload of one method.
    pub fn of_method(m: &Method) -> (r: Payload)
        ensures
            r.file_name@ == m.names.2@ + ".rs"@,
            r.content@ == payload_text(*m),
    {
        let file_name = cat(m.names.2.as_str(), ".rs");
        let u = uses(m);
        let sibling = match &m.sibling {
            Some(s) => Some(s.as_str()),
            None => None,
        };
        let method_doc = render_doc(&m.doc, sibling);
        let fields = multipart_input_file_fields(m);
        let multipart = match &fields {
            Some(f) => cat(cat("    @[multipart = ", join(f, ", ").as_str()).as_str(), "]\n"),
            None => String::new(),
        };
        let derive = if fields.is_some() || is_reduced_derive_exec(m.names.1.as_str()) {
            owned("#[derive(Debug, Clone, Serialize)]")
        } else {
            let eq_hash = if eq_hash_suitable(m) {
                " Eq, Hash,"
            } else {
                ""
            };
            let default = if default_needed(m) {
                " Default,"
            } else {
                ""
            };
            cat(
                cat(cat("#[derive(Debug, PartialEq,", eq_hash).as_str(), default).as_str(),
                " Clone, Serialize)]",
            )
        };
        let timeout = if str_eq(m.names.2.as_str(), "get_updates") {
            "    @[timeout_secs = timeout]\n"
        } else {
            ""
        };
        let req = params(&m.params, false);
        let required = if req.unicode_len() > 0 {
            cat(cat("        required {\n", req.as_str()).as_str(), "\n        }")
        } else {
            req
        };
        let opt = params(&m.params, true);
        let optional = if opt.unicode_len() > 0 {
            cat(cat("\n        optional {\n", opt.as_str()).as_str(), "\n        }")
        } else {
            opt
        };
        proof {
            reveal_strlit("");
            assert(""@ =~= Seq::<char>::empty());
        }
        assert(multipart@ == multipart_line(*m));
        assert(derive@ == derive_line(*m));
        assert(timeout@ == timeout_line(*m));
        assert(required@ == required_block(*m));
        assert(optional@ == optional_block(*m));
        assert(method_doc@ == doc_text(m.doc.md@, opt_view(m.sibling), sort_by_key(pair_views(m.doc.md_links@))));
        let name = m.names.1.as_str();
        let mut c = cat(u.as_str(), "\n\nimpl_payload! {\n");
        c = cat(c.as_str(), multipart.as_str());
        c = cat(c.as_str(), timeout);
        c = cat(c.as_str(), method_doc.as_str());
        c = cat(c.as_str(), "\n    ");
        c = cat(c.as_str(), derive.as_str());
        c = cat(c.as_str(), "\n    pub ");
        c = cat(c.as_str(), name);
        c = cat(c.as_str(), " (");
        c = cat(c.as_str(), name);
        c = cat(c.as_str(), "Setters) => ");
        c = cat(c.as_str(), m.return_ty.to_text().as_str());
        c = cat(c.as_str(), " {\n");
        c = cat(c.as_str(), required.as_str());
        c = cat(c.as_str(), optional.as_str());
        c = cat(c.as_str(), "\n    }\n}\n");
        Payload { file_name, content: c }
    }

    /// The payload of every method, in schema order.
    pub fn generate(schema: &Schema) -> (r: Vec<Payload>)
        ensures
            r@.len() == schema.methods@.len(),
            forall|i: int|
                0 <= i < r@.len() ==> (#[trigger] r@[i]).file_name@ == schema.methods@[i].names.2@
                    + ".rs"@ && r@[i].content@ == payload_text(schema.methods@[i]),
    {
        let mut out: Vec<Payload> = Vec::new();
        let mut i: usize = 0;
        while i < schema.methods.len()
            invariant
                i <= schema.methods@.len(),
                out@.len() == i,
                forall|j: int|
                    0 <= j < i ==> (#[trigger] out@[j]).file_name@ == schema.methods@[j].names.2@
                        + ".rs"@ && out@[j].content@ == payload_text(schema.methods@[j]),
            decreases schema.methods@.len() - i,
        {
            out.push(Payload::of_method(&schema.methods[i]));
            i = i + 1;
        }
        out
    }
}

/// Each payload file: its name and its text, the file banner first.
pub fn payloads_main(schema: &Schema) -> (r: Vec<(String, String)>)
    ensures
        r@.len() == schema.methods@.len(),
        forall|i: int|
            0 <= i < r@.len() ==> (#[trigger] r@[i]).0@ == schema.methods@[i].names.2@ + ".rs"@
                && r@[i].1@ == header_text("file"@) + "\n"@ + payload_text(schema.methods@[i]),
{
    let head = header("file");
    let payloads = Payload::generate(schema);
    let mut out: Vec<(String, String)> = Vec::new();
    let mut i: usize = 0;
    while i < payloads.len()
        invariant
            head@ == header_text("file"@),
            payloads@.len() == schema.methods@.len(),
            forall|j: int|
                0 <= j < payloads@.len() ==> (#[trigger] payloads@[j]).file_name@
                    == schema.methods@[j].names.2@ + ".rs"@ && payloads@[j].content@ == payload_text(
                    schema.methods@[j],
                ),
            i <= payloads@.len(),
            out@.len() == i,
            forall|j: int|
                0 <= j < i ==> (#[trigger] out@[j]).0@ == schema.methods@[j].names.2@ + ".rs"@
                    && out@[j].1@ == header_text("file"@) + "\n"@ + payload_text(schema.methods@[j]),
        decreases payloads@.len() - i,
    {
        let content = cat(cat(head.as_str(), "\n").as_str(), payloads[i].content.as_str());
        out.push((payloads[i].file_name.clone(), content));
        i = i + 1;
    }
    out
}


/// One line per method: its module (`kind` 0), its re-export (1), or its
/// setters trait brought into scope (2).
pub open spec fn listing_line(m: Method, kind: u8) -> Seq<char> {
    if kind == 0 {
        "mod "@ + m.names.2@ + ";\n"@
    } else if kind == 1 {
        "pub use "@ + m.names.2@ + "::{"@ + m.names.1@ + ", "@ + m.names.1@ + "Setters};\n"@
    } else {
        "    "@ + m.names.1@ + "Setters as _,\n"@
    }
}

/// The lines of one kind for every method, in schema order.
pub open spec fn listing(ms: Seq<Method>, kind: u8) -> Seq<char>
    decreases ms.len(),
{
    if ms.len() == 0 {
        seq![]
    } else {
        listing(ms.drop_last(), kind) + listing_line(ms.last(), kind)
    }
}

/// The payload module's declarations and re-exports, then the setters
/// prelude, each after its banner.
pub open spec fn modrs_and_settersrs_text(ms: Seq<Method>) -> Seq<char> {
    header_text("block"@) + "\n"@ + listing(ms, 0) + "\n"@ + listing(ms, 1) + "\n\n\n"@ + header_text(
        "file"@,
    ) + "\n"@ + "#[doc(no_inline)]\npub use crate::payloads::{\n"@ + listing(ms, 2) + "};\n"@
}

fn listing_exec(ms: &Vec<Method>, kind: u8) -> (r: String)
    ensures
        r@ == listing(ms@, kind),
{
    let mut out = String::new();
    let mut i: usize = 0;
    while i < ms.len()
        invariant
            i <= ms@.len(),
            out@ == listing(ms@.take(i as int), kind),
        decreases ms@.len() - i,
    {
        assert(ms@.take(i + 1).drop_last() =~= ms@.take(i as int));
        let m = &ms[i];
        let line = if kind == 0 {
            cat(cat("mod ", m.names.2.as_str()).as_str(), ";\n")
        } else if kind == 1 {
            let a = cat(cat("pub use ", m.names.2.as_str()).as_str(), "::{");
            let b = cat(cat(a.as_str(), m.names.1.as_str()).as_str(), ", ");
            cat(cat(b.as_str(), m.names.1.as_str()).as_str(), "Setters};\n")
        } else {
            cat(cat("    ", m.names.1.as_str()).as_str(), "Setters as _,\n")
        };
        out = cat(out.as_str(), line.as_str());
        i = i + 1;
    }
    assert(ms@.take(ms@.len() as int) =~= ms@);
    out
}

/// The payload module's declarations and re-exports, then the setters
/// prelude, each after its banner.
pub fn payloads_modrs_and_settersrs(schema: &Schema) -> (r: String)
    ensures
        r@ == modrs_and_settersrs_text(schema.methods@),
{
    let mut c = cat(header("block").as_str(), "\n");
    c = cat(c.as_str(), listing_exec(&schema.methods, 0).as_str());
    c = cat(c.as_str(), "\n");
    c = cat(c.as_str(), listing_exec(&schema.methods, 1).as_str());
    c = cat(c.as_str(), "\n\n\n");
    c = cat(c.as_str(), header("file").as_str());
    c = cat(c.as_str(), "\n");
    c = cat(c.as_str(), "#[doc(no_inline)]\npub use crate::payloads::{\n");
    c = cat(c.as_str(), listing_exec(&schema.methods, 2).as_str());
    cat(c.as_str(), "};\n")
}

} // verus!
