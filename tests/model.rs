use rfocxt::callbacks::RfocxtCallbacks;
use rfocxt::mod_context::{check_modules, FnItem, ModContext, SourceInfo, StructItem, UnionItem, EnumItem};
use rfocxt::text::{clear_codes, contains_text, path_last_segment, same_text, str_less};

fn span(file: &str, begin: usize, end: usize) -> SourceInfo {
    SourceInfo::new(file.to_string(), begin, end)
}

#[test]
fn clear_codes_keeps_signature() {
    let mut c = "fn f(x: u8) -> u8 { x + 1 }".to_string();
    clear_codes(&mut c);
    assert_eq!(c, "fn f(x: u8) -> u8 {}");
    let mut d = "fn g();".to_string();
    clear_codes(&mut d);
    assert_eq!(d, "fn g();");
    let mut e = "fn h() { if a { b } }".to_string();
    clear_codes(&mut e);
    assert_eq!(e, "fn h() {}");
}

#[test]
fn text_helpers() {
    assert!(str_less("a::b", "a::c"));
    assert!(str_less("a", "ab"));
    assert!(!str_less("b", "a"));
    assert!(!str_less("a", "a"));
    assert!(same_text("x", "x"));
    assert!(!same_text("x", "y"));
    assert!(contains_text("Vec < Foo >", "Foo"));
    assert!(!contains_text("Fo", "Foo"));
    assert_eq!(path_last_segment("a::b::Foo"), "Foo");
    assert_eq!(path_last_segment("Foo"), "Foo");
}

#[test]
fn add_use_skips_empty_and_covered() {
    let mut m = ModContext::new(&"m".to_string());
    m.add_use(span("a.rs", 5, 5), "use a;".to_string());
    assert!(m.uses.is_empty());
    m.add_use(span("a.rs", 0, 50), "use a::{b, c};".to_string());
    m.add_use(span("a.rs", 10, 20), "use a::b;".to_string());
    assert_eq!(m.uses.len(), 1);
    m.add_use(span("b.rs", 10, 20), "use a::b;".to_string());
    assert_eq!(m.uses.len(), 2);
}

#[test]
fn add_extern_crate_skips_empty_span() {
    let mut m = ModContext::new(&"m".to_string());
    m.add_extern_crate(span("a.rs", 3, 1), "extern crate x;".to_string());
    assert!(m.extern_crates.is_empty());
    m.add_extern_crate(span("a.rs", 1, 3), "extern crate x;".to_string());
    m.add_extern_crate(span("a.rs", 4, 9), "extern crate x;".to_string());
    assert_eq!(m.extern_crates.len(), 1);
}

#[test]
fn same_name_replaces_and_order_kept() {
    let mut m = ModContext::new(&"m".to_string());
    let f = |n: &str, c: &str| FnItem { name: n.to_string(), codes: c.to_string(), source_info: span("a.rs", 0, 1), applications: Vec::new() };
    m.add_fn(f("m::b", "fn b() {}"));
    m.add_fn(f("m::a", "fn a() {}"));
    m.add_fn(f("m::b", "fn b() { 1; }"));
    assert_eq!(m.fns.len(), 2);
    assert_eq!(m.fns[0].name, "m::a");
    assert_eq!(m.fns[1].codes, "fn b() { 1; }");
}

#[test]
fn simple_items_collapse_by_text() {
    let mut m = ModContext::new(&"m".to_string());
    m.add_static(span("a.rs", 0, 1), "static S: u8 = 0;".to_string());
    m.add_static(span("a.rs", 5, 6), "static S: u8 = 0;".to_string());
    m.add_macro(span("a.rs", 0, 1), "macro_rules! m { () => {} }".to_string());
    m.add_ty_alias(span("a.rs", 0, 1), "type A = u8;".to_string());
    m.add_opaque_ty(span("a.rs", 0, 1), "type B = impl Sized;".to_string());
    m.add_trait_alias(span("a.rs", 0, 1), "trait C = Clone;".to_string());
    assert_eq!(m.statics.len(), 1);
    assert_eq!(m.macros.len(), 1);
    assert_eq!(m.ty_aliases.len(), 1);
    assert_eq!(m.opaque_tys.len(), 1);
    assert_eq!(m.trait_aliases.len(), 1);
}

#[test]
fn derive_goes_to_enum_then_union() {
    let mut m = ModContext::new(&"m".to_string());
    m.add_enum(EnumItem { name: "m::E".to_string(), codes: "enum E { A }".to_string(), derives: Vec::new(), source_info: span("a.rs", 0, 1), applications: Vec::new() });
    m.add_union(UnionItem { name: "m::U".to_string(), codes: "union U { a: u8 }".to_string(), derives: Vec::new(), source_info: span("a.rs", 0, 1), applications: Vec::new() });
    m.add_struct(StructItem { name: "m::S".to_string(), codes: "struct S;".to_string(), derives: Vec::new(), source_info: span("a.rs", 0, 1), applications: Vec::new() });
    m.add_derive("m::E".to_string(), "Copy".to_string());
    m.add_derive("m::U".to_string(), "Clone".to_string());
    m.add_derive("m::Missing".to_string(), "Clone".to_string());
    m.derive_to_codes();
    assert_eq!(m.enums[0].codes, "#[derive(Copy)]\nenum E { A }");
    assert_eq!(m.unions[0].codes, "#[derive(Clone)]\nunion U { a: u8 }");
    assert_eq!(m.structs[0].codes, "struct S;");
}

#[test]
fn module_applications_extend() {
    let mut m = ModContext::new(&"m".to_string());
    m.add_application("b".to_string());
    m.extend_application(vec!["c".to_string(), "a".to_string(), "b".to_string()]);
    assert_eq!(m.applications, vec!["a".to_string(), "b".to_string(), "c".to_string()]);
}

#[test]
fn source_spans() {
    let outer = span("a.rs", 0, 10);
    assert!(outer.contains(&span("a.rs", 2, 10)));
    assert!(!outer.contains(&span("a.rs", 2, 11)));
    assert!(!outer.contains(&span("b.rs", 2, 3)));
    assert!(span("a.rs", 4, 4).is_empty());
}

#[test]
fn module_checks() {
    let mut a = ModContext::new(&"m".to_string());
    a.add_fn(FnItem { name: "m::f".to_string(), codes: "fn f() {}".to_string(), source_info: span("a.rs", 0, 1), applications: Vec::new() });
    let b = ModContext::new(&"m".to_string());
    let c = ModContext::new(&"n".to_string());
    assert!(a.is_wf());
    assert!(check_modules(&vec![ModContext::new(&"m".to_string()), c]));
    assert!(!check_modules(&vec![a, b]));
    let mut bad = ModContext::new(&"z".to_string());
    bad.applications = vec!["b".to_string(), "a".to_string()];
    assert!(!bad.is_wf());
}

#[test]
fn callbacks_start_empty() {
    let c = RfocxtCallbacks::new("/tmp/x".to_string());
    assert_eq!(c.source_name, "");
    assert_eq!(c.crate_path, "/tmp/x");
}
