//! The requester trait's declarations and the macro that forwards them.

use vstd::prelude::*;
use indexmap::IndexMap;
use crate::classify::{convert_for, convert_of, Convert};
use crate::gen::{header, header_text, partition};
use crate::prefix::{
    all_distinct, all_prefixes_exist, distinct, sorted_generic_names, generic_of, generic_param_names, generics_in_order, generics_list,
    is_generic_param, lemma_generic_param_listed, method_entries, method_names_ok, prefix_entries,
    prefix_table, PrefixError,
};
use crate::render::ty_text;
use crate::schema::{Method, Param, Schema};
use crate::text::{cat, join, joined, to_uppercase, views};

verus! {

/// One argument of a requester method: the parameter's generic name where it
/// has one, else its type.
pub open spec fn arg_text(p: Param, e: Map<Seq<char>, Seq<char>>) -> Seq<char> {
    p.name@ + ": "@ + if e.contains_key(p.name@) {
        generic_of(e[p.name@])
    } else {
        ty_text(p.ty)
    }
}

/// The bound on a generic parameter's type, if it is generic.
pub open spec fn bound_of(p: Param, e: Map<Seq<char>, Seq<char>>) -> Option<Seq<char>> {
    match convert_of(p.ty) {
        Convert::Id(_) => None,
        Convert::Into(t) => Some(generic_of(e[p.name@]) + ": Into<"@ + ty_text(t) + ">"@),
        Convert::Collect(t) => Some(
            generic_of(e[p.name@]) + ": IntoIterator<Item = "@ + ty_text(t) + ">"@,
        ),
    }
}

/// The bounds of the parameters, in order.
pub open spec fn bounds(ps: Seq<Param>, e: Map<Seq<char>, Seq<char>>) -> Seq<Seq<char>>
    decreases ps.len(),
{
    if ps.len() == 0 {
        seq![]
    } else {
        let r = bounds(ps.drop_last(), e);
        match bound_of(ps.last(), e) {
            Some(b) => r.push(b),
            None => r,
        }
    }
}

/// The arguments of the method's requester signature: its required
/// parameters in order.
pub open spec fn args_text(m: Method) -> Seq<char> {
    joined(
        partition(m.params@, false).map_values(|p: Param| arg_text(p, method_entries(m))),
        ", "@,
    )
}

/// The generic parameter list, in angle brackets, or nothing.
pub open spec fn generics_text(m: Method) -> Seq<char> {
    let g = joined(generics_in_order(m.params@, method_entries(m)), ", "@);
    if g.len() == 0 {
        g
    } else {
        "<"@ + g + ">"@
    }
}

/// The where clause, or nothing.
pub open spec fn where_text(m: Method) -> Seq<char> {
    let w = joined(bounds(partition(m.params@, false), method_entries(m)), ",\n        "@);
    if w.len() == 0 {
        w
    } else {
        " where "@ + w
    }
}

/// The requester trait's declarations for the method.
pub open spec fn requester_text(m: Method) -> Seq<char> {
    let a = args_text(m);
    "\n    type "@ + m.names.1@ + ": Request<Payload = "@ + m.names.1@
        + ", Err = Self::Err>;\n\n    /// For Telegram documentation see [`"@ + m.names.1@ + "`].\n    fn "@
        + m.names.2@ + " "@ + generics_text(m) + " (&self"@ + (if a.len() == 0 {
        a
    } else {
        ", "@ + a
    }) + ") -> Self::"@ + m.names.1@ + where_text(m) + ";\n            \n"@
}

/// The forwarding macro's rule for the method.
pub open spec fn forward_text(m: Method) -> Seq<char> {
    let a = args_text(m);
    "\n\n    (@method "@ + m.names.2@ + " $body:ident $ty:ident) => {\n        type "@ + m.names.1@
        + " = $ty!["@ + m.names.1@ + "];\n\n        fn "@ + m.names.2@ + generics_text(m) + "(&self"@
        + (if a.len() == 0 {
        a
    } else {
        ", "@
    }) + a + ") -> Self::"@ + m.names.1@ + where_text(m)
        + " {\n            let this = self;\n            $body!("@ + m.names.2@ + " this ("@ + a
        + "))\n        }\n    };\n    \n"@
}

/// The head of the forwarding macro, before the rules of the methods.
pub open spec fn macro_head() -> Seq<char> {
    "macro_rules! requester_forward {\n    ($i:ident $(, $rest:ident )* $(,)? => $body:ident, $ty:ident ) => {\n        requester_forward!(@method $i $body $ty);\n        $(\n            requester_forward!(@method $rest $body $ty);\n        )*\n    };\n"@
}

/// The texts of the methods, one after the other: trait declarations
/// (`forward` false) or macro rules.
pub open spec fn all_texts(ms: Seq<Method>, forward: bool) -> Seq<char>
    decreases ms.len(),
{
    if ms.len() == 0 {
        seq![]
    } else {
        all_texts(ms.drop_last(), forward) + if forward {
            forward_text(ms.last())
        } else {
            requester_text(ms.last())
        }
    }
}

/// Every method of the schema gets its generic names.
pub open spec fn all_names_ok(ms: Seq<Method>) -> bool {
    forall|i: int| 0 <= i < ms.len() ==> method_names_ok(#[trigger] ms[i])
}

/// The generic names (joined), the arguments and the where clause of a
/// method's signature, and whether the generic names are all different.
fn signature(m: &Method, map: &IndexMap<String, String>) -> (r: (String, String, String, bool))
    requires
        prefix_entries(*map) == method_entries(*m),
        forall|k: Seq<char>|
            #[trigger] generic_param_names(m.params@).contains(k) ==> prefix_entries(*map).contains_key(k),
        forall|k: Seq<char>|
            #[trigger] prefix_entries(*map).contains_key(k) ==> prefix_entries(*map)[k].len() > 0,
    ensures
        r.0@ == generics_text(*m),
        r.1@ == args_text(*m),
        r.2@ == where_text(*m),
        r.3 == distinct(generics_in_order(m.params@, method_entries(*m))),
{
    let ghost e = method_entries(*m);
    let ghost ps = m.params@;
    let g = generics_list(&m.params, map);
    let ok = all_distinct(&g);
    let gj = join(&g, ", ");
    let generics = if gj.unicode_len() == 0 {
        gj
    } else {
        cat(cat("<", gj.as_str()).as_str(), ">")
    };
    let mut args: Vec<String> = Vec::new();
    let mut bounds_v: Vec<String> = Vec::new();
    let mut i: usize = 0;
    while i < m.params.len()
        invariant
            e == prefix_entries(*map),
            e == method_entries(*m),
            ps == m.params@,
            forall|k: Seq<char>| #[trigger] generic_param_names(ps).contains(k) ==> e.contains_key(k),
            forall|k: Seq<char>| #[trigger] e.contains_key(k) ==> e[k].len() > 0,
            i <= ps.len(),
            views(args@) == partition(ps.take(i as int), false).map_values(|p: Param| arg_text(p, e)),
            views(bounds_v@) == bounds(partition(ps.take(i as int), false), e),
        decreases ps.len() - i,
    {
        assert(ps.take(i + 1).drop_last() =~= ps.take(i as int));
        let p = &m.params[i];
        let optional = match &p.ty {
            crate::schema::Type::Optional(_) => true,
            _ => false,
        };
        if !optional {
            let ghost oa = views(args@);
            let ghost ob = views(bounds_v@);
            let name = p.name.as_str();
            let arg = match crate::prefix::map_get(map, name) {
                Some(pre) => cat(cat(name, ": ").as_str(), to_uppercase(pre.as_str()).as_str()),
                None => cat(cat(name, ": ").as_str(), p.ty.to_text().as_str()),
            };
            args.push(arg);
            assert(views(args@) =~= oa.push(arg_text(*p, e)));
            let c = convert_for(&p.ty);
            match c {
                Convert::Id(_) => {},
                _ => {
                    proof {
                        assert(is_generic_param(ps[i as int]));
                        lemma_generic_param_listed(ps, i as int);
                    }
                    let pre = match crate::prefix::map_get(map, name) {
                        Some(pre) => pre,
                        None => {
                            proof {
                                assert(false);
                            }
                            String::new()
                        },
                    };
                    let gname = to_uppercase(pre.as_str());
                    let b = match &c {
                        Convert::Into(t) => cat(
                            cat(cat(gname.as_str(), ": Into<").as_str(), t.to_text().as_str()).as_str(),
                            ">",
                        ),
                        Convert::Collect(t) => cat(
                            cat(
                                cat(gname.as_str(), ": IntoIterator<Item = ").as_str(),
                                t.to_text().as_str(),
                            ).as_str(),
                            ">",
                        ),
                        Convert::Id(_) => String::new(),
                    };
                    bounds_v.push(b);
                    assert(views(bounds_v@) =~= ob.push(b@));
                },
            }
            assert(partition(ps.take(i + 1), false) == partition(ps.take(i as int), false).push(*p));
            assert(partition(ps.take(i as int), false).push(*p).drop_last() =~= partition(ps.take(i as int), false));
        } else {
            assert(partition(ps.take(i + 1), false) == partition(ps.take(i as int), false));
        }
        assert(views(bounds_v@) == bounds(partition(ps.take(i + 1), false), e));
        assert(views(args@) =~= partition(ps.take(i + 1), false).map_values(|p: Param| arg_text(p, e)));
        i = i + 1;
    }
    assert(ps.take(ps.len() as int) =~= ps);
    let aj = join(&args, ", ");
    let wj = join(&bounds_v, ",\n        ");
    let where_clause = if wj.unicode_len() == 0 {
        wj
    } else {
        cat(" where ", wj.as_str())
    };
    (generics, aj, where_clause, ok)
}

/// The requester trait's declarations for the method: an associated request
/// type and a method whose required arguments are generic where callers may
/// pass something convertible or iterable.
pub fn requester_method(m: &Method) -> (r: Result<String, PrefixError>)
    ensures
        r is Ok <==> method_names_ok(*m),
        r matches Err(e) ==> (e == PrefixError::NoPrefix <==> !all_prefixes_exist(
            sorted_generic_names(*m),
        )),
        r matches Ok(t) ==> t@ == requester_text(*m),
{
    let map = prefix_table(m)?;
    let (g, a, w, ok) = signature(m, &map);
    if !ok {
        return Err(PrefixError::Ambiguous);
    }
    let mut c = cat("\n    type ", m.names.1.as_str());
    c = cat(c.as_str(), ": Request<Payload = ");
    c = cat(c.as_str(), m.names.1.as_str());
    c = cat(c.as_str(), ", Err = Self::Err>;\n\n    /// For Telegram documentation see [`");
    c = cat(c.as_str(), m.names.1.as_str());
    c = cat(c.as_str(), "`].\n    fn ");
    c = cat(c.as_str(), m.names.2.as_str());
    c = cat(c.as_str(), " ");
    c = cat(c.as_str(), g.as_str());
    c = cat(c.as_str(), " (&self");
    if a.unicode_len() > 0 {
        c = cat(c.as_str(), ", ");
        c = cat(c.as_str(), a.as_str());
    } else {
        c = cat(c.as_str(), a.as_str());
    }
    c = cat(c.as_str(), ") -> Self::");
    c = cat(c.as_str(), m.names.1.as_str());
    c = cat(c.as_str(), w.as_str());
    c = cat(c.as_str(), ";\n            \n");
    Ok(c)
}

/// The forwarding macro's rule for the method: the same signature, with a
/// body that hands the call to the delegate.
pub fn forward_rule(m: &Method) -> (r: Result<String, PrefixError>)
    ensures
        r is Ok <==> method_names_ok(*m),
        r matches Err(e) ==> (e == PrefixError::NoPrefix <==> !all_prefixes_exist(
            sorted_generic_names(*m),
        )),
        r matches Ok(t) ==> t@ == forward_text(*m),
{
    let map = prefix_table(m)?;
    let (g, a, w, ok) = signature(m, &map);
    if !ok {
        return Err(PrefixError::Ambiguous);
    }
    let name = m.names.2.as_str();
    let ty = m.names.1.as_str();
    let mut c = cat("\n\n    (@method ", name);
    c = cat(c.as_str(), " $body:ident $ty:ident) => {\n        type ");
    c = cat(c.as_str(), ty);
    c = cat(c.as_str(), " = $ty![");
    c = cat(c.as_str(), ty);
    c = cat(c.as_str(), "];\n\n        fn ");
    c = cat(c.as_str(), name);
    c = cat(c.as_str(), g.as_str());
    c = cat(c.as_str(), "(&self");
    if a.unicode_len() > 0 {
        c = cat(c.as_str(), ", ");
    } else {
        c = cat(c.as_str(), a.as_str());
    }
    c = cat(c.as_str(), a.as_str());
    c = cat(c.as_str(), ") -> Self::");
    c = cat(c.as_str(), ty);
    c = cat(c.as_str(), w.as_str());
    c = cat(c.as_str(), " {\n            let this = self;\n            $body!(");
    c = cat(c.as_str(), name);
    c = cat(c.as_str(), " this (");
    c = cat(c.as_str(), a.as_str());
    c = cat(c.as_str(), "))\n        }\n    };\n    \n");
    Ok(c)
}

fn all_methods(ms: &Vec<Method>, forward: bool) -> (r: Result<String, PrefixError>)
    ensures
        r is Ok <==> all_names_ok(ms@),
        r matches Ok(t) ==> t@ == all_texts(ms@, forward),
{
    let mut out = String::new();
    let mut i: usize = 0;
    while i < ms.len()
        invariant
            i <= ms@.len(),
            forall|j: int| 0 <= j < i ==> method_names_ok(#[trigger] ms@[j]),
            out@ == all_texts(ms@.take(i as int), forward),
        decreases ms@.len() - i,
    {
        assert(ms@.take(i + 1).drop_last() =~= ms@.take(i as int));
        let t = if forward {
            forward_rule(&ms[i])
        } else {
            requester_method(&ms[i])
        };
        match t {
            Ok(t) => {
                out = cat(out.as_str(), t.as_str());
            },
            Err(e) => {
                return Err(e);
            },
        }
        i = i + 1;
    }
    assert(ms@.take(ms@.len() as int) =~= ms@);
    Ok(out)
}

/// The requester trait's declarations for every method, after the block
/// banner. Fails when some method's generic names cannot be chosen.
pub fn echo_requester(schema: &Schema) -> (r: Result<String, PrefixError>)
    ensures
        r is Ok <==> all_names_ok(schema.methods@),
        r matches Ok(t) ==> t@ == header_text("block"@) + "\n"@ + all_texts(schema.methods@, false),
{
    let body = all_methods(&schema.methods, false)?;
    let head = header("block");
    Ok(cat(cat(head.as_str(), "\n").as_str(), body.as_str()))
}

/// The macro that forwards every requester method to a delegate, after the
/// macro banner. Fails when some method's generic names cannot be chosen.
pub fn echo_requester_fwd_macro(schema: &Schema) -> (r: Result<String, PrefixError>)
    ensures
        r is Ok <==> all_names_ok(schema.methods@),
        r matches Ok(t) ==> t@ == header_text("macro"@) + "\n"@ + macro_head() + all_texts(
            schema.methods@,
            true,
        ) + "}\n"@,
{
    let body = all_methods(&schema.methods, true)?;
    let head = header("macro");
    let mut c = cat(head.as_str(), "\n");
    c = cat(
        c.as_str(),
        "macro_rules! requester_forward {\n    ($i:ident $(, $rest:ident )* $(,)? => $body:ident, $ty:ident ) => {\n        requester_forward!(@method $i $body $ty);\n        $(\n            requester_forward!(@method $rest $body $ty);\n        )*\n    };\n",
    );
    c = cat(c.as_str(), body.as_str());
    Ok(cat(c.as_str(), "}\n"))
}

} // verus!
