//! Decisions that follow from a parameter's type: conversion strategy,
//! derivable traits, multipart encoding.

use vstd::prelude::*;
use crate::schema::{Method, Param, Type};
use crate::text::str_eq;

verus! {

/// How a caller may supply a parameter's value.
pub enum Convert {
    /// The value itself.
    Id(Type),
    /// Anything convertible into the type.
    Into(Type),
    /// Any iterable of the element type.
    Collect(Type),
}

/// Raw types that callers may build from something convertible.
pub open spec fn is_builder_raw(s: Seq<char>) -> bool {
    s == "Recipient"@ || s == "ChatId"@ || s == "TargetMessage"@ || s == "ReplyMarkup"@
}

/// The conversion strategy of a type.
pub open spec fn convert_of(t: Type) -> Convert
    decreases t,
{
    match t {
        Type::Str => Convert::Into(Type::Str),
        Type::DateTime => Convert::Into(Type::DateTime),
        Type::Optional(inner) => convert_of(*inner),
        Type::ArrayOf(inner) => Convert::Collect(*inner),
        Type::RawTy(s) => if is_builder_raw(s@) {
            Convert::Into(Type::RawTy(s))
        } else {
            Convert::Id(Type::RawTy(s))
        },
        _ => Convert::Id(t),
    }
}

/// Raw types whose values cannot be compared or hashed.
pub open spec fn is_incomparable_raw(s: Seq<char>) -> bool {
    s == "MaskPosition"@ || s == "InlineQueryResult"@
}

/// Values of the type can be compared for equality and hashed.
pub open spec fn ty_eq_hash(t: Type) -> bool
    decreases t,
{
    match t {
        Type::F64 => false,
        Type::Optional(inner) => ty_eq_hash(*inner),
        Type::ArrayOf(inner) => ty_eq_hash(*inner),
        Type::RawTy(s) => !is_incomparable_raw(s@),
        _ => true,
    }
}

/// The type holds a float somewhere inside it.
pub open spec fn contains_float(t: Type) -> bool
    decreases t,
{
    match t {
        Type::F64 => true,
        Type::Optional(inner) => contains_float(*inner),
        Type::ArrayOf(inner) => contains_float(*inner),
        _ => false,
    }
}

/// Every parameter of the method can be compared and hashed.
pub open spec fn eq_hash_of(params: Seq<Param>) -> bool {
    forall|i: int| 0 <= i < params.len() ==> ty_eq_hash(#[trigger] params[i].ty)
}

/// Raw types that carry file content.
pub open spec fn is_file_raw(s: Seq<char>) -> bool {
    s == "InputFile"@ || s == "InputSticker"@
}

/// The type is a file type, possibly wrapped in one `Option`.
pub open spec fn is_multipart_ty(t: Type) -> bool {
    match t {
        Type::RawTy(x) => is_file_raw(x@),
        Type::Optional(inner) => match *inner {
            Type::RawTy(x) => is_file_raw(x@),
            _ => false,
        },
        _ => false,
    }
}

/// The names of the parameters that carry files, in order.
pub open spec fn multipart_names(ps: Seq<Param>) -> Seq<Seq<char>>
    decreases ps.len(),
{
    if ps.len() == 0 {
        seq![]
    } else {
        let r = multipart_names(ps.drop_last());
        if is_multipart_ty(ps.last().ty) {
            r.push(ps.last().name@)
        } else {
            r
        }
    }
}

fn is_builder_raw_exec(s: &String) -> (r: bool)
    ensures
        r == is_builder_raw(s@),
{
    str_eq(s.as_str(), "Recipient") || str_eq(s.as_str(), "ChatId") || str_eq(
        s.as_str(),
        "TargetMessage",
    ) || str_eq(s.as_str(), "ReplyMarkup")
}

/// How a caller may supply a value of the type.
pub fn convert_for(ty: &Type) -> (r: Convert)
    ensures
        r == convert_of(*ty),
    decreases ty,
{
    match ty {
        Type::True => Convert::Id(Type::True),
        Type::U8 => Convert::Id(Type::U8),
        Type::U16 => Convert::Id(Type::U16),
        Type::U32 => Convert::Id(Type::U32),
        Type::I32 => Convert::Id(Type::I32),
        Type::U64 => Convert::Id(Type::U64),
        Type::I64 => Convert::Id(Type::I64),
        Type::F64 => Convert::Id(Type::F64),
        Type::Bool => Convert::Id(Type::Bool),
        Type::Str => Convert::Into(Type::Str),
        Type::Optional(inner) => convert_for(inner),
        Type::ArrayOf(inner) => Convert::Collect((**inner).copy()),
        Type::RawTy(s) => {
            if is_builder_raw_exec(s) {
                Convert::Into(Type::RawTy(s.clone()))
            } else {
                Convert::Id(Type::RawTy(s.clone()))
            }
        },
        Type::Url => Convert::Id(Type::Url),
        Type::DateTime => Convert::Into(Type::DateTime),
    }
}

fn ty_eq_hash_suitable(ty: &Type) -> (r: bool)
    ensures
        r == ty_eq_hash(*ty),
    decreases ty,
{
    match ty {
        Type::F64 => false,
        Type::Optional(inner) => ty_eq_hash_suitable(inner),
        Type::ArrayOf(inner) => ty_eq_hash_suitable(inner),
        Type::True | Type::U8 | Type::U16 | Type::U32 | Type::I32 | Type::U64 | Type::I64
        | Type::Bool | Type::Str => true,
        Type::Url | Type::DateTime => true,
        Type::RawTy(raw) => !str_eq(raw.as_str(), "MaskPosition") && !str_eq(
            raw.as_str(),
            "InlineQueryResult",
        ),
    }
}

/// The method's payload can derive `Eq` and `Hash`: no parameter holds a float
/// or a raw type that cannot be compared.
pub fn eq_hash_suitable(method: &Method) -> (r: bool)
    ensures
        r == eq_hash_of(method.params@),
{
    let mut i: usize = 0;
    while i < method.params.len()
        invariant
            i <= method.params@.len(),
            forall|j: int| 0 <= j < i ==> ty_eq_hash(#[trigger] method.params@[j].ty),
        decreases method.params@.len() - i,
    {
        if !ty_eq_hash_suitable(&method.params[i].ty) {
            return false;
        }
        i = i + 1;
    }
    true
}

/// The method's payload can derive `Default`: every parameter is optional
/// (so also when there is none).
pub fn default_needed(method: &Method) -> (r: bool)
    ensures
        r == (forall|i: int|
            0 <= i < method.params@.len() ==> (#[trigger] method.params@[i].ty).is_optional()),
{
    let mut i: usize = 0;
    while i < method.params.len()
        invariant
            i <= method.params@.len(),
            forall|j: int| 0 <= j < i ==> (#[trigger] method.params@[j].ty).is_optional(),
        decreases method.params@.len() - i,
    {
        match &method.params[i].ty {
            Type::Optional(_) => {},
            _ => {
                return false;
            },
        }
        i = i + 1;
    }
    true
}

fn is_file_raw_exec(s: &String) -> (r: bool)
    ensures
        r == is_file_raw(s@),
{
    str_eq(s.as_str(), "InputFile") || str_eq(s.as_str(), "InputSticker")
}

/// The type carries file content (possibly optional), so its method is sent as
/// multipart.
pub fn ty_is_multiparty(ty: &Type) -> (r: bool)
    ensures
        r == is_multipart_ty(*ty),
{
    match ty {
        Type::RawTy(x) => is_file_raw_exec(x),
        Type::Optional(inner) => match &**inner {
            Type::RawTy(x) => is_file_raw_exec(x),
            _ => false,
        },
        _ => false,
    }
}

/// The names of the parameters that carry files, in order; `None` when there
/// is none and the method is sent as an ordinary body.
pub fn multipart_input_file_fields(m: &Method) -> (r: Option<Vec<String>>)
    ensures
        r is None <==> multipart_names(m.params@).len() == 0,
        r matches Some(v) ==> crate::text::views(v@) == multipart_names(m.params@),
{
    let mut fields: Vec<String> = Vec::new();
    let mut i: usize = 0;
    while i < m.params.len()
        invariant
            i <= m.params@.len(),
            crate::text::views(fields@) == multipart_names(m.params@.take(i as int)),
        decreases m.params@.len() - i,
    {
        assert(m.params@.take(i + 1).drop_last() =~= m.params@.take(i as int));
        if ty_is_multiparty(&m.params[i].ty) {
            fields.push(m.params[i].name.clone());
        }
        assert(crate::text::views(fields@) =~= multipart_names(m.params@.take(i + 1)));
        i = i + 1;
    }
    assert(m.params@.take(m.params@.len() as int) =~= m.params@);
    if fields.len() == 0 {
        None
    } else {
        Some(fields)
    }
}

/// A parameter type that holds a float anywhere inside cannot be compared.
pub proof fn lemma_float_not_comparable(t: Type)
    requires
        contains_float(t),
    ensures
        !ty_eq_hash(t),
    decreases t,
{
    match t {
        Type::Optional(inner) => lemma_float_not_comparable(*inner),
        Type::ArrayOf(inner) => lemma_float_not_comparable(*inner),
        _ => {},
    }
}

/// A method with a parameter that holds a float anywhere inside gets no
/// `Eq`/`Hash` derive.
pub proof fn lemma_float_blocks_eq_hash(params: Seq<Param>, i: int)
    requires
        0 <= i < params.len(),
        contains_float(params[i].ty),
    ensures
        !eq_hash_of(params),
{
    lemma_float_not_comparable(params[i].ty);
}


/// The type holds, somewhere inside, a raw type that cannot be compared.
pub open spec fn contains_incomparable_raw(t: Type) -> bool
    decreases t,
{
    match t {
        Type::RawTy(s) => is_incomparable_raw(s@),
        Type::Optional(inner) => contains_incomparable_raw(*inner),
        Type::ArrayOf(inner) => contains_incomparable_raw(*inner),
        _ => false,
    }
}

/// A type without floats and without incomparable raw types can be compared.
pub proof fn lemma_float_free_comparable(t: Type)
    requires
        !contains_float(t),
        !contains_incomparable_raw(t),
    ensures
        ty_eq_hash(t),
    decreases t,
{
    match t {
        Type::Optional(inner) => lemma_float_free_comparable(*inner),
        Type::ArrayOf(inner) => lemma_float_free_comparable(*inner),
        _ => {},
    }
}

/// A method whose parameters hold no float and no incomparable raw type gets
/// the `Eq`/`Hash` derive.
pub proof fn lemma_float_free_eq_hash(params: Seq<Param>)
    requires
        forall|i: int|
            0 <= i < params.len() ==> !contains_float(#[trigger] params[i].ty)
                && !contains_incomparable_raw(params[i].ty),
    ensures
        eq_hash_of(params),
{
    assert forall|i: int| 0 <= i < params.len() implies ty_eq_hash(#[trigger] params[i].ty) by {
        lemma_float_free_comparable(params[i].ty);
    }
}

} // verus!
