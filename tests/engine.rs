use rfocxt::assembly::{header_text, parses_as, returns_own_type, ParseKind};
use rfocxt::closure::parse_direct_applications;
use rfocxt::encoding::encoded_name;
use rfocxt::mod_context::{FnItem, ImplItem, InnerFnItem, ModContext, SourceInfo, StructItem, TraitItem};
use rfocxt::parse_context::{focal_context, name_map, ParseContext};
use rfocxt::render::{compose_text, Section};

fn span(begin: usize, end: usize) -> SourceInfo {
    SourceInfo::new("lib.rs".to_string(), begin, end)
}

fn names(v: &[&str]) -> Vec<String> {
    v.iter().map(|s| s.to_string()).collect()
}

fn func(name: &str, codes: &str, refs: &[&str]) -> FnItem {
    FnItem { name: name.to_string(), codes: codes.to_string(), source_info: span(0, 1), applications: names(refs) }
}

fn method(name: &str, codes: &str, refs: &[&str]) -> InnerFnItem {
    InnerFnItem { name: name.to_string(), codes: codes.to_string(), source_info: span(0, 1), applications: names(refs) }
}

fn structure(name: &str, codes: &str) -> StructItem {
    StructItem {
        name: name.to_string(),
        codes: codes.to_string(),
        derives: Vec::new(),
        source_info: span(0, 1),
        applications: Vec::new(),
    }
}

fn render(sections: &Vec<Section>) -> String {
    let printed: Vec<Option<String>> = sections
        .iter()
        .map(|s| syn::parse_file(&s.body).ok().map(|f| prettyplease::unparse(&f)))
        .collect();
    compose_text(sections, &printed)
}

fn context_of(mods: &Vec<ModContext>, entry: &str) -> String {
    let all = ParseContext::new(mods).parse_context();
    let found = all.iter().find(|c| c.name == entry).expect("entry point");
    render(&found.sections)
}

#[test]
fn direct_reference_in_full() {
    let mut m = ModContext::new(&"m".to_string());
    m.add_fn(func("m::f", "fn f() { g(); }", &["m::g"]));
    m.add_fn(func("m::g", "fn g() { let y = 2; }", &[]));
    let mods = vec![m];
    let text = context_of(&mods, "m::f");
    assert!(text.starts_with("// m\n"));
    assert!(text.contains("fn f() {\n    g();\n}"));
    assert!(text.contains("let y = 2;"));
}

#[test]
fn indirect_function_stubbed() {
    let mut m = ModContext::new(&"m".to_string());
    m.add_fn(func("m::f", "fn f() { g(); }", &["m::g"]));
    m.add_fn(func("m::g", "fn g() { h(); }", &["m::h"]));
    m.add_fn(func("m::h", "fn h() -> u8 { let x = 1; x }", &[]));
    let mods = vec![m];
    let text = context_of(&mods, "m::f");
    assert!(text.contains("g();"));
    assert!(text.contains("h();"));
    assert!(text.contains("fn h() -> u8 {}"));
    assert!(!text.contains("let x = 1;"));
}

#[test]
fn impl_constructor_kept() {
    let mut m = ModContext::new(&"m".to_string());
    m.add_struct(structure("m::T", "struct T { x: i32 }"));
    m.add_fn(func("m::u", "fn u(t: T) {}", &["m::T"]));
    let block = ImplItem {
        name: "m::{impl#0}".to_string(),
        struct_name: "m::T".to_string(),
        trait_name: None,
        codes: "impl T { fn new() -> T { T { x: 1 } } fn helper() -> i32 { let t = T { x: 2 }; 42 } }".to_string(),
        source_info: span(0, 1),
        types: Vec::new(),
        consts: Vec::new(),
        fns: vec![
            method("m::{impl#0}::helper", "fn helper() -> i32 { let t = T { x: 2 }; 42 }", &["m::T"]),
            method("m::{impl#0}::new", "fn new() -> T { T { x: 1 } }", &["m::T"]),
        ],
        applications: names(&["m::T"]),
    };
    m.add_impl(block);
    let mods = vec![m];
    let text = context_of(&mods, "m::u");
    assert!(text.contains("T { x: 1 }"));
    assert!(text.contains("fn helper() -> i32 {}"));
    assert!(!text.contains("42"));
    assert!(!text.contains("x: 2"));
}

#[test]
fn name_map_two_entries() {
    let mut m = ModContext::new(&"a".to_string());
    m.add_fn(func("a::f", "fn f() {}", &[]));
    m.add_fn(func("a::g", "fn g() {}", &[]));
    let mods = vec![m];
    let all = ParseContext::new(&mods).parse_context();
    let map = name_map(&all);
    assert_eq!(map.len(), 2);
    assert_eq!(map[0].name, "a::f");
    assert_eq!(map[0].file_name, "a_00003a_00003af");
    assert_eq!(map[1].name, "a::g");
    assert_eq!(map[1].file_name, "a_00003a_00003ag");
}

#[test]
fn derive_added_twice_gives_one_line() {
    let mut m = ModContext::new(&"m".to_string());
    m.add_struct(structure("m::S", "struct S;"));
    m.add_derive("m::S".to_string(), "Debug".to_string());
    m.add_derive("m::S".to_string(), "Debug".to_string());
    m.add_derive("m::S".to_string(), "Clone".to_string());
    m.derive_to_codes();
    assert_eq!(m.structs[0].codes, "#[derive(Clone, Debug)]\nstruct S;");
}

#[test]
fn same_run_twice_same_text() {
    let mut m = ModContext::new(&"m".to_string());
    m.add_fn(func("m::f", "fn f() { g(); }", &["m::g", "m::h"]));
    m.add_fn(func("m::g", "fn g() { h(); }", &["m::h"]));
    m.add_fn(func("m::h", "fn h() { f(); }", &["m::f"]));
    let mods = vec![m];
    let a = render(&focal_context(&mods, &names(&["m::f", "m::g", "m::h"])));
    let b = render(&focal_context(&mods, &names(&["m::h", "m::g", "m::f", "m::g"])));
    assert_eq!(a, b);
    assert_eq!(context_of(&mods, "m::f"), context_of(&mods, "m::f"));
}

#[test]
fn closure_follows_cycles_once() {
    let mut m = ModContext::new(&"m".to_string());
    m.add_fn(func("m::a", "fn a() {}", &["m::b"]));
    m.add_fn(func("m::b", "fn b() {}", &["m::a", "m::c", "std::x"]));
    m.add_fn(func("m::c", "fn c() {}", &[]));
    m.add_fn(func("m::d", "fn d() {}", &["m::a"]));
    let mods = vec![m];
    let mut out = names(&["stale"]);
    parse_direct_applications(&mods, &names(&["m::a"]), &mut out);
    assert_eq!(out, names(&["m::a", "m::b", "m::c", "std::x"]));
}

#[test]
fn closure_of_empty_seeds_is_empty() {
    let mods = vec![ModContext::new(&"m".to_string())];
    let mut out = Vec::new();
    parse_direct_applications(&mods, &Vec::new(), &mut out);
    assert!(out.is_empty());
}

#[test]
fn entry_without_references_renders_itself() {
    let mut m = ModContext::new(&"m".to_string());
    m.add_fn(func("m::f", "fn f() { let z = 3; }", &[]));
    m.add_fn(func("m::other", "fn other() { let w = 4; }", &[]));
    let mods = vec![m];
    let text = context_of(&mods, "m::f");
    assert!(text.contains("let z = 3;"));
    assert!(!text.contains("other"));
}

#[test]
fn unparsable_declaration_is_skipped() {
    let mut m = ModContext::new(&"m".to_string());
    m.add_fn(func("m::f", "fn f() { g(); }", &["m::g"]));
    m.add_fn(func("m::g", "fn g( {", &[]));
    let mods = vec![m];
    let text = context_of(&mods, "m::f");
    assert!(text.contains("g();"));
    assert!(!text.contains("fn g("));
}

#[test]
fn module_imports_come_along() {
    let mut m = ModContext::new(&"m".to_string());
    m.add_use(span(0, 20), "use std::fmt;".to_string());
    m.add_fn(func("m::f", "fn f() {}", &[]));
    let mut n = ModContext::new(&"n".to_string());
    n.add_fn(func("n::q", "fn q() {}", &[]));
    let mods = vec![m, n];
    let text = context_of(&mods, "m::f");
    assert!(text.contains("use std::fmt;"));
    assert!(!text.contains("// n"));
}

#[test]
fn kinds_in_fixed_order() {
    let mut m = ModContext::new(&"m".to_string());
    m.add_struct(structure("m::A", "struct A;"));
    m.add_fn(func("m::f", "fn f() {}", &["m::A"]));
    m.add_const(span(0, 1), "const K: u8 = 1;".to_string());
    let mods = vec![m];
    let text = context_of(&mods, "m::f");
    let k = text.find("const K").unwrap();
    let f = text.find("fn f").unwrap();
    let a = text.find("struct A").unwrap();
    assert!(k < f && f < a);
}

#[test]
fn trait_method_entry_with_shell() {
    let mut m = ModContext::new(&"m".to_string());
    let t = TraitItem {
        name: "m::Tr".to_string(),
        codes: "trait Tr { fn a(&self) -> u8 { 1 } fn b(&self) -> u8 { 2 } }".to_string(),
        source_info: span(0, 1),
        types: Vec::new(),
        consts: Vec::new(),
        fns: vec![
            method("m::Tr::a", "fn a(&self) -> u8 { 1 }", &[]),
            method("m::Tr::b", "fn b(&self) -> u8 { 2 }", &[]),
        ],
        applications: Vec::new(),
    };
    m.add_trait(t);
    let mods = vec![m];
    let text = context_of(&mods, "m::Tr::a");
    assert!(text.contains("trait Tr"));
    assert!(text.contains("fn a(&self) -> u8"));
    assert!(!text.contains("fn b"));
}

#[test]
fn encoded_name_escapes_punctuation() {
    assert_eq!(encoded_name("a::{impl#0}::new"), "a_00003a_00003a_00007bimpl_0000230_00007d_00003a_00003anew");
    assert_eq!(encoded_name("abcXYZ019"), "abcXYZ019");
    assert_eq!(encoded_name(""), "");
}

#[test]
fn return_type_rule() {
    assert!(returns_own_type(&Some("Self".to_string()), "a::T"));
    assert!(returns_own_type(&Some("Option < T >".to_string()), "a::T"));
    assert!(!returns_own_type(&Some("i32".to_string()), "a::T"));
    assert!(!returns_own_type(&None, "a::T"));
}

#[test]
fn parse_checks() {
    assert!(parses_as(&ParseKind::Item, "fn f() {}"));
    assert!(!parses_as(&ParseKind::Item, "fn f( {"));
    assert!(parses_as(&ParseKind::ImplMember, "fn g(&self) {}"));
    assert!(parses_as(&ParseKind::TraitMember, "fn g(&self);"));
    assert!(!parses_as(&ParseKind::ImplMember, "struct"));
}

#[test]
fn header_and_composition() {
    assert_eq!(header_text("impl T { }"), "impl T { ");
    assert_eq!(header_text("impl W < { N } > { }"), "impl W < { N } > { ");
    let secs = vec![
        Section { name: "a".to_string(), body: "raw a".to_string() },
        Section { name: "b".to_string(), body: "raw b".to_string() },
    ];
    assert_eq!(compose_text(&secs, &vec![Some("printed".to_string()), None]), "// a\nprinted\n// b\nraw b\n");
}

#[test]
fn modules_in_order_first_touched() {
    let mut z = ModContext::new(&"z".to_string());
    z.add_fn(func("z::g", "fn g() {}", &[]));
    let mut m = ModContext::new(&"m".to_string());
    m.add_fn(func("m::f", "fn f() { g(); }", &["z::g"]));
    let mods = vec![z, m];
    let text = context_of(&mods, "m::f");
    let at_m = text.find("// m\n").unwrap();
    let at_z = text.find("// z\n").unwrap();
    assert!(at_m < at_z);
}

#[test]
fn whole_output_of_lone_function() {
    let mut m = ModContext::new(&"m".to_string());
    m.add_fn(func("m::f", "fn   f( ) {}", &[]));
    let mods = vec![m];
    assert_eq!(context_of(&mods, "m::f"), "// m\nfn f() {}\n\n");
}

#[test]
fn closure_of_closure_is_same() {
    let mut m = ModContext::new(&"m".to_string());
    m.add_fn(func("m::a", "fn a() {}", &["m::b"]));
    m.add_fn(func("m::b", "fn b() {}", &["m::c"]));
    m.add_fn(func("m::c", "fn c() {}", &["m::a"]));
    let mods = vec![m];
    let mut once = Vec::new();
    parse_direct_applications(&mods, &names(&["m::b"]), &mut once);
    let mut twice = Vec::new();
    parse_direct_applications(&mods, &once, &mut twice);
    assert_eq!(once, names(&["m::a", "m::b", "m::c"]));
    assert_eq!(once, twice);
}

#[test]
fn stub_keeps_attribute_with_brace() {
    let mut m = ModContext::new(&"m".to_string());
    m.add_fn(func("m::f", "fn f() { g(); }", &["m::g"]));
    m.add_fn(func("m::g", "fn g() { h(); }", &["m::h"]));
    m.add_fn(func("m::h", "#[cfg(feature = \"{\")]\nfn h(x: [u8; { 2 }]) -> u8 { let q = 7; q }", &[]));
    let mods = vec![m];
    let text = context_of(&mods, "m::f");
    assert!(text.contains("#[cfg(feature = \"{\")]"));
    assert!(text.contains("fn h(x: [u8; { 2 }]) -> u8 {}"));
    assert!(!text.contains("let q = 7;"));
}

#[test]
fn impl_header_with_braced_argument() {
    let mut m = ModContext::new(&"m".to_string());
    m.add_struct(structure("m::W", "struct W<const N: usize>;"));
    m.add_fn(func("m::u", "fn u() {}", &["m::W"]));
    let block = ImplItem {
        name: "m::{impl#0}".to_string(),
        struct_name: "m::W".to_string(),
        trait_name: None,
        codes: "impl W<{ 3 }> { fn make() -> Self { W } fn size() -> usize { 3 + 4 } }".to_string(),
        source_info: span(0, 1),
        types: Vec::new(),
        consts: Vec::new(),
        fns: vec![
            method("m::{impl#0}::make", "fn make() -> Self { W }", &[]),
            method("m::{impl#0}::size", "fn size() -> usize { 3 + 4 }", &[]),
        ],
        applications: names(&["m::W"]),
    };
    m.add_impl(block);
    let mods = vec![m];
    let text = context_of(&mods, "m::u");
    assert!(text.contains("impl W<{ 3 }> {"));
    assert!(text.contains("fn make() -> Self {"));
    assert!(text.contains("fn size() -> usize {}"));
    assert!(!text.contains("3 + 4"));
}

#[test]
fn two_sections_in_order_for_two_modules() {
    let mut a = ModContext::new(&"a".to_string());
    a.add_fn(func("a::x", "fn x() {}", &["b::y"]));
    let mut b = ModContext::new(&"b".to_string());
    b.add_fn(func("b::y", "fn y() {}", &[]));
    let mods = vec![a, b];
    let secs = focal_context(&mods, &names(&["a::x", "b::y"]));
    assert_eq!(secs.len(), 2);
    assert_eq!(secs[0].name, "a");
    assert_eq!(secs[1].name, "b");
}
