use cg::classify::{
    convert_for, default_needed, eq_hash_suitable, multipart_input_file_fields, ty_is_multiparty,
    Convert,
};
use cg::gen::{header, params, payloads_main, payloads_modrs_and_settersrs, uses, Payload};
use cg::patch::{
    doc_patches, escape_kw, intra_links, patch_sc, patch_with, CustomPatch, Patch, PatchError,
    Target,
};
use cg::prefix::{generic_names, min_prefix, sort_names, PrefixError};
use cg::render::render_doc;
use cg::requester::{echo_requester, echo_requester_fwd_macro, forward_rule, requester_method};
use cg::schema::{ApiVersion, Doc, Method, Param, Schema, Type};
use cg::text::{replace_all, str_lt, to_uppercase};

fn raw(s: &str) -> Type {
    Type::RawTy(s.to_string())
}

fn opt(t: Type) -> Type {
    Type::Optional(Box::new(t))
}

fn param(name: &str, ty: Type) -> Param {
    Param { name: name.to_string(), ty, descr: Doc::new(format!("The {}.", name)) }
}

fn method(name: &str, params: Vec<Param>) -> Method {
    let mut ty = to_uppercase(name);
    if ty.is_empty() {
        ty = String::new();
    }
    Method {
        names: (name.to_string(), ty, name.to_string()),
        return_ty: Type::True,
        doc: Doc::new(String::from("Does a thing.")),
        tg_doc: String::new(),
        tg_category: String::new(),
        notes: Vec::new(),
        params,
        sibling: None,
    }
}

fn schema(methods: Vec<Method>) -> Schema {
    Schema {
        api_version: ApiVersion { ver: String::from("5.0"), date: String::from("today") },
        methods,
        tg_categoryes: Vec::new(),
    }
}

fn sticker_method() -> Method {
    let mut m = method(
        "sendSticker",
        vec![
            param("chat_id", raw("ChatId")),
            param("sticker", raw("InputFile")),
            param("disable_notification", opt(Type::Bool)),
        ],
    );
    m.names = (String::from("sendSticker"), String::from("SendSticker"), String::from("send_sticker"));
    m
}

#[test]
fn eq_hash_rejects_float() {
    let m = method("a", vec![param("a", Type::I64), param("b", Type::F64)]);
    assert!(!eq_hash_suitable(&m));
}

#[test]
fn eq_hash_accepts_int_and_string() {
    let m = method("a", vec![param("a", Type::I64), param("b", Type::Str)]);
    assert!(eq_hash_suitable(&m));
}

#[test]
fn eq_hash_rejects_nested_float_and_named_raw() {
    let m = method("a", vec![param("a", opt(Type::ArrayOf(Box::new(Type::F64))))]);
    assert!(!eq_hash_suitable(&m));
    let m = method("a", vec![param("p", raw("MaskPosition"))]);
    assert!(!eq_hash_suitable(&m));
    let m = method("a", vec![param("p", raw("InlineQueryResult"))]);
    assert!(!eq_hash_suitable(&m));
}

#[test]
fn default_when_all_optional() {
    assert!(default_needed(&method("a", vec![param("x", opt(Type::Bool))])));
    assert!(!default_needed(&method("a", vec![param("x", Type::Bool)])));
    assert!(default_needed(&method("a", vec![])));
    assert!(!default_needed(&method("a", vec![param("x", opt(Type::Bool)), param("y", Type::U8)])));
}

#[test]
fn conversion_table() {
    assert!(matches!(convert_for(&Type::U32), Convert::Id(Type::U32)));
    assert!(matches!(convert_for(&Type::Str), Convert::Into(Type::Str)));
    assert!(matches!(convert_for(&Type::DateTime), Convert::Into(Type::DateTime)));
    assert!(matches!(convert_for(&Type::Url), Convert::Id(Type::Url)));
    assert!(matches!(convert_for(&raw("ChatId")), Convert::Into(Type::RawTy(ref s)) if s == "ChatId"));
    assert!(matches!(convert_for(&raw("InputFile")), Convert::Id(Type::RawTy(ref s)) if s == "InputFile"));
    assert!(matches!(convert_for(&opt(raw("ReplyMarkup"))), Convert::Into(_)));
    assert!(matches!(convert_for(&Type::ArrayOf(Box::new(Type::I64))), Convert::Collect(Type::I64)));
}

#[test]
fn multipart_detection() {
    assert!(ty_is_multiparty(&raw("InputFile")));
    assert!(ty_is_multiparty(&opt(raw("InputSticker"))));
    assert!(!ty_is_multiparty(&raw("ChatId")));
    assert!(!ty_is_multiparty(&Type::ArrayOf(Box::new(raw("InputFile")))));
    assert_eq!(multipart_input_file_fields(&method("a", vec![param("x", Type::Bool)])), None);
}

#[test]
fn sticker_example_end_to_end() {
    let m = sticker_method();
    assert_eq!(multipart_input_file_fields(&m), Some(vec![String::from("sticker")]));
    let required = params(&m.params, false);
    assert!(required.contains("pub chat_id: ChatId [into],"));
    assert!(required.contains("pub sticker: InputFile,"));
    assert!(!required.contains("disable_notification"));
    let optional = params(&m.params, true);
    assert!(optional.contains("pub disable_notification: bool,"));
    assert_eq!(generic_names(&m), Ok(vec![String::from("C")]));
    let t = requester_method(&m).unwrap();
    assert!(t.contains("fn send_sticker <C> (&self, chat_id: C, sticker: InputFile) -> Self::SendSticker where C: Into<ChatId>;"));
}

#[test]
fn two_generic_parameters() {
    let m = method("a", vec![param("sticker", Type::Str), param("chat_id", raw("ChatId"))]);
    assert_eq!(generic_names(&m), Ok(vec![String::from("S"), String::from("C")]));
    let t = requester_method(&m).unwrap();
    assert!(t.contains("<S, C>"));
    assert!(t.contains("where S: Into<String>,\n        C: Into<ChatId>;"));
}

#[test]
fn prefixes_follow_first_difference() {
    assert_eq!(min_prefix("chat_id", "chat_ids2"), None);
    assert_eq!(min_prefix("chat_id", "chat_name"), Some(String::from("chat_i")));
    assert_eq!(min_prefix("chat_id", "\0"), Some(String::from("c")));
    assert_eq!(min_prefix("", "x"), None);
    let m = method("a", vec![param("chat_id", raw("ChatId")), param("chat_name", Type::Str)]);
    assert_eq!(generic_names(&m), Ok(vec![String::from("Chat_i"), String::from("Chat_n")]));
}

#[test]
fn prefix_of_other_name_fails() {
    let m = method("a", vec![param("a", Type::Str), param("ab", Type::Str)]);
    assert_eq!(generic_names(&m), Err(PrefixError::NoPrefix));
    assert_eq!(requester_method(&m), Err(PrefixError::NoPrefix));
}

#[test]
fn equal_generic_names_fail() {
    let m = method("a", vec![param("ax", Type::Str), param("Ax", Type::Str)]);
    assert_eq!(generic_names(&m), Err(PrefixError::Ambiguous));
    let m = method("a", vec![param("x", Type::Str), param("x", Type::Str)]);
    assert!(generic_names(&m).is_err());
}

#[test]
fn no_generics_without_conversions() {
    let m = method("getMe", vec![]);
    assert_eq!(generic_names(&m), Ok(vec![]));
    let t = requester_method(&m).unwrap();
    assert!(t.contains("fn getMe  (&self) -> Self::GetMe;"));
    let f = forward_rule(&m).unwrap();
    assert!(f.contains("fn getMe(&self) -> Self::GetMe {"));
    assert!(f.contains("$body!(getMe this ())"));
}

#[test]
fn names_sort_lexicographically() {
    let v = vec![String::from("b"), String::from("a"), String::from("ab"), String::from("B")];
    assert_eq!(sort_names(v), vec!["B", "a", "ab", "b"]);
    assert!(str_lt("a", "ab"));
    assert!(!str_lt("b", "ab"));
}

#[test]
fn full_replace_twice_is_stale() {
    let mut d = Doc::new(String::from("old"));
    let p = Patch::FullReplace { text: String::from("old"), with: String::from("new") };
    let t = Target::Method(Some(String::from("m")));
    assert_eq!(d.patch(&p, &t), Ok(()));
    assert_eq!(d.md, "new");
    assert_eq!(d.patch(&p, &t), Err(PatchError::StaleText));
    assert_eq!(d.md, "new");
}

#[test]
fn replace_link_missing_under_exact_target() {
    let mut d = Doc::new(String::from("x"));
    let p = Patch::ReplaceLink { name: String::from("k"), value: String::from("v") };
    assert_eq!(d.patch(&p, &Target::Method(Some(String::from("m")))), Err(PatchError::MissingLink));
    assert_eq!(d.patch(&p, &Target::Any { method_name: None }), Ok(()));
    assert!(d.md_links.is_empty());
    let t = Target::Field { method_name: Some(String::from("m")), field_name: None };
    assert!(!t.is_exact());
    assert_eq!(d.patch(&p, &t), Ok(()));
}

#[test]
fn link_operations() {
    let mut d = Doc::new(String::from("a b a"));
    let t = Target::Any { method_name: None };
    d.patch(&Patch::AddLink { name: String::from("k"), value: String::from("1") }, &t).unwrap();
    d.patch(&Patch::AddLink { name: String::from("k"), value: String::from("2") }, &t).unwrap();
    assert_eq!(d.md_links, vec![(String::from("k"), String::from("2"))]);
    d.patch(&Patch::ReplaceLink { name: String::from("k"), value: String::from("3") }, &t).unwrap();
    assert_eq!(d.md_links, vec![(String::from("k"), String::from("3"))]);
    d.patch(&Patch::RemoveLink { name: String::from("k") }, &t).unwrap();
    d.patch(&Patch::RemoveLink { name: String::from("k") }, &t).unwrap();
    assert!(d.md_links.is_empty());
    d.patch(&Patch::Replace { text: String::from("a"), with: String::from("xy") }, &t).unwrap();
    assert_eq!(d.md, "xy b xy");
}

#[test]
fn replace_matches_std() {
    assert_eq!(replace_all("aaa", "aa", "b"), "aaa".replace("aa", "b"));
    assert_eq!(replace_all("ab", "", "x"), "ab".replace("", "x"));
    assert_eq!(replace_all("", "", "x"), "x");
    assert_eq!(replace_all("line\nnext", "\n", "\n    /// "), "line\n    /// next");
}

#[test]
fn intra_links_rewrites_methods_and_types() {
    let api = "https://core.telegram.org/bots/api#";
    let mut d = Doc::new(String::from("Use [sendMessage] to send a [Message]; see [unbanned] and [update]."));
    d.md_links.push((String::from("sendMessage"), format!("{}sendmessage", api)));
    d.md_links.push((String::from("Message"), format!("{}message", api)));
    d.md_links.push((String::from("unbanned"), format!("{}unbanchatmember", api)));
    d.md_links.push((String::from("update"), format!("{}update", api)));
    d.md_links.push((String::from("two words"), format!("{}x", api)));
    d.md_links.push((String::from("other"), String::from("https://example.com")));
    intra_links(&mut d);
    assert_eq!(d.md, "Use [`SendMessage`] to send a [`Message`]; see [unbanned] and [`update`].");
    let mut links = d.md_links.clone();
    links.sort();
    assert_eq!(
        links,
        vec![
            (String::from("`Message`"), String::from("crate::types::Message")),
            (String::from("`SendMessage`"), String::from("crate::payloads::SendMessage")),
            (String::from("`update`"), String::from("crate::types::update")),
            (String::from("other"), String::from("https://example.com")),
            (String::from("two words"), format!("{}x", api)),
            (String::from("unbanned"), String::from("crate::payloads::UnbanChatMember")),
        ]
    );
}

#[test]
fn keyword_parameter_names_are_escaped() {
    let mut s = String::from("type");
    escape_kw(&mut s);
    assert_eq!(s, "r#type");
    let mut s = String::from("types");
    escape_kw(&mut s);
    assert_eq!(s, "types");
}

#[test]
fn rule_table_applies_in_order() {
    let rules = doc_patches();
    assert_eq!(rules.len(), 3);
    let mut m = method("addStickerToSet", vec![param("type", Type::Str)]);
    m.doc = Doc::new(String::from(
        "Adds. You **must** use exactly one of the fields _png\\_sticker_ or _tgs\\_sticker_. Returns.",
    ));
    m.doc.md_links.push((String::from("More info on Sending Files \u{bb}"), String::from("https://x")));
    let out = patch_sc(schema(vec![m])).unwrap();
    let m = &out.methods[0];
    assert_eq!(m.doc.md, "Adds. Returns.");
    assert_eq!(
        m.doc.md_links,
        vec![(String::from("More info on Sending Files \u{bb}"), String::from("crate::types::InputFile"))]
    );
    assert_eq!(m.params[0].name, "r#type");
}

#[test]
fn rules_fail_on_stale_text() {
    let rules = vec![(
        Target::Field { method_name: Some(String::from("m")), field_name: Some(String::from("p")) },
        Patch::FullReplace { text: String::from("old"), with: String::from("new") },
    )];
    let mut m = method("m", vec![param("p", Type::Str)]);
    m.params[0].descr = Doc::new(String::from("old"));
    let once = patch_with(schema(vec![m]), &rules).unwrap();
    assert_eq!(once.methods[0].params[0].descr.md, "new");
    assert_eq!(once.methods[0].doc.md, "Does a thing.");
    assert!(matches!(patch_with(once, &rules), Err(PatchError::StaleText)));
    let custom = vec![(Target::Any { method_name: None }, Patch::Custom(CustomPatch::IntraLinks))];
    assert!(patch_with(schema(vec![method("m", vec![])]), &custom).is_ok());
}

#[test]
fn doc_renders_sorted_links_and_sibling() {
    let mut d = Doc::new(String::from("First.\nSecond."));
    d.md_links.push((String::from("b"), String::from("u2")));
    d.md_links.push((String::from("a"), String::from("u1")));
    let r = render_doc(&d, Some("sendPhoto"));
    assert_eq!(
        r,
        "    /// First.\n    /// Second.\n    /// \n    /// See also: [`SendPhoto`](crate::payloads::SendPhoto)\n    ///\n    /// [a]: u1\n    /// [b]: u2"
    );
    assert_eq!(render_doc(&Doc::new(String::from("x")), None), "    /// x");
}

#[test]
fn imports_are_sorted_and_unique() {
    let mut m = method("a", vec![param("a", raw("Message")), param("b", opt(raw("Chat"))), param("c", raw("Message"))]);
    m.return_ty = Type::ArrayOf(Box::new(Type::DateTime));
    assert_eq!(
        uses(&m),
        "use chrono::{DateTime, Utc};\nuse serde::Serialize;\n\nuse crate::types::Chat;use crate::types::Message;"
    );
    let plain = method("a", vec![param("a", Type::U8)]);
    let mut plain = plain;
    plain.return_ty = Type::Str;
    assert_eq!(uses(&plain), "use serde::Serialize;");
}

#[test]
fn header_names_the_unit() {
    let h = header("file");
    assert!(h.starts_with("// This file is auto generated"));
    assert!(h.contains("THIS FILE**"));
}

#[test]
fn payload_for_sticker_method() {
    let s = schema(vec![sticker_method(), method("getMe", vec![])]);
    let p = Payload::generate(&s);
    assert_eq!(p.len(), 2);
    assert_eq!(p[0].file_name, "send_sticker.rs");
    assert!(p[0].content.contains("    @[multipart = sticker]\n"));
    assert!(p[0].content.contains("#[derive(Debug, Clone, Serialize)]"));
    assert!(p[0].content.contains("pub SendSticker (SendStickerSetters) => True {"));
    assert!(p[0].content.contains("        required {\n"));
    assert!(p[0].content.contains("\n        optional {\n"));
    assert!(p[1].content.contains("#[derive(Debug, PartialEq, Eq, Hash, Default, Clone, Serialize)]"));
    assert!(!p[1].content.contains("required"));
    let files = payloads_main(&s);
    assert_eq!(files[1].0, "getMe.rs");
    assert!(files[1].1.starts_with("// This file is auto generated"));
    assert!(files[1].1.ends_with(&p[1].content));
}

#[test]
fn requester_outputs_cover_every_method() {
    let s = schema(vec![sticker_method(), method("getMe", vec![])]);
    let r = echo_requester(&s).unwrap();
    assert!(r.starts_with("// This block is auto generated"));
    assert!(r.contains("type SendSticker: Request<Payload = SendSticker, Err = Self::Err>;"));
    assert!(r.contains("type GetMe: Request<Payload = GetMe, Err = Self::Err>;"));
    let f = echo_requester_fwd_macro(&s).unwrap();
    assert!(f.contains("macro_rules! requester_forward {"));
    assert!(f.contains("fn send_sticker<C>(&self, chat_id: C, sticker: InputFile) -> Self::SendSticker where C: Into<ChatId> {"));
    assert!(f.ends_with("}\n"));
    let bad = schema(vec![method("a", vec![param("a", Type::Str), param("ab", Type::Str)])]);
    assert_eq!(echo_requester(&bad), Err(PrefixError::NoPrefix));
}

#[test]
fn module_listing_names_every_method() {
    let s = schema(vec![sticker_method(), method("getMe", vec![])]);
    let t = payloads_modrs_and_settersrs(&s);
    assert!(t.starts_with("// This block is auto generated"));
    assert!(t.contains("\nmod send_sticker;\nmod getMe;\n\npub use send_sticker::{SendSticker, SendStickerSetters};\npub use getMe::{GetMe, GetMeSetters};\n\n\n\n// This file"));
    assert!(t.ends_with("#[doc(no_inline)]\npub use crate::payloads::{\n    SendStickerSetters as _,\n    GetMeSetters as _,\n};\n"));
}

#[test]
fn both_generic_example() {
    let m = method("a", vec![param("chat_id", raw("ChatId")), param("sticker", Type::Str)]);
    assert_eq!(generic_names(&m), Ok(vec![String::from("C"), String::from("S")]));
    assert!(requester_method(&m).unwrap().contains("fn a <C, S> (&self, chat_id: C, sticker: S)"));
}

#[test]
fn regeneration_is_byte_stable() {
    let build = || {
        let mut m = sticker_method();
        m.doc.md_links.push((String::from("z"), String::from("u3")));
        m.doc.md_links.push((String::from("m"), String::from("u2")));
        m.doc.md_links.push((String::from("a"), String::from("u1")));
        schema(vec![m, method("getMe", vec![param("x", raw("B")), param("y", raw("A"))])])
    };
    let first = payloads_main(&build());
    let second = payloads_main(&build());
    assert_eq!(first, second);
    assert!(first[0].1.contains("[a]: u1\n    /// [m]: u2\n    /// [z]: u3"));
    assert!(first[1].1.contains("use crate::types::A;use crate::types::B;use crate::types::True;"));
}
