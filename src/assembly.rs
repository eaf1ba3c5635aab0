use vstd::prelude::*;
use crate::keyed::{Keyed, name_set, sorted_by_key, find_key};
use crate::order::{touch_order, index_views, visit_all};
use crate::mod_context::{Coded, ModContext, InnerFnItem, TraitItem, ImplItem};
use crate::syntax::{
    item_parses, trait_member_parses, impl_member_parses, return_type_of, opt_text,
    parses_as_item, parses_as_trait_member, parses_as_impl_member, method_return_type,
    stub_of, emptied_block_of, function_stub, emptied_block,
};
use crate::text::{occurs_in, last_segment, last_before, contains_text, path_last_segment, chars_of, find_last};

verus! {

/// Which grammar a declaration's text is read with.
pub enum ParseKind {
    Item,
    TraitMember,
    ImplMember,
}

pub open spec fn parses(k: ParseKind, s: Seq<char>) -> bool {
    match k {
        ParseKind::Item => item_parses(s),
        ParseKind::TraitMember => trait_member_parses(s),
        ParseKind::ImplMember => impl_member_parses(s),
    }
}

pub fn parses_as(k: &ParseKind, s: &str) -> (r: bool)
    ensures
        r == parses(*k, s@),
{
    match k {
        ParseKind::Item => parses_as_item(s),
        ParseKind::TraitMember => parses_as_trait_member(s),
        ParseKind::ImplMember => parses_as_impl_member(s),
    }
}

/// The texts of the declarations of `s` that parse, in order.
pub open spec fn texts<T: Coded>(s: Seq<T>, k: ParseKind) -> Seq<Seq<char>>
    decreases s.len(),
{
    if s.len() == 0 {
        Seq::empty()
    } else {
        texts(s.drop_last(), k) + if parses(k, s.last().text()) {
            seq![s.last().text()]
        } else {
            Seq::empty()
        }
    }
}

/// The declarations of `s` whose names are in `i` and whose text parses, as
/// (name, text) rows. With `stubbable`, one whose name is not in `d` is
/// rendered as its stub: the function with an empty body.
pub open spec fn rows<T: Keyed + Coded>(s: Seq<T>, d: Set<Seq<char>>, i: Set<Seq<char>>, stubbable: bool) -> Seq<(Seq<char>, Seq<char>)>
    decreases s.len(),
{
    if s.len() == 0 {
        Seq::empty()
    } else {
        let x = s.last();
        let stub = stubbable && !d.contains(x.key());
        rows(s.drop_last(), d, i, stubbable) + if i.contains(x.key()) && parses(ParseKind::Item, x.text())
            && (!stub || stub_of(x.text()) is Some) {
            seq![(x.key(), if stub { stub_of(x.text())->0 } else { x.text() })]
        } else {
            Seq::empty()
        }
    }
}

/// The opening of a trait or impl block, from the block printed with its
/// members removed: everything before its closing brace.
pub open spec fn header_of(e: Seq<char>) -> Seq<char> {
    match last_before(e, '}', e.len() as int) {
        Some(r) => e.take(r),
        None => e,
    }
}

/// Some declaration of `s` is named in `i`.
pub open spec fn any_named<T: Keyed>(s: Seq<T>, i: Set<Seq<char>>) -> bool {
    exists|j: int| 0 <= j < s.len() && i.contains((#[trigger] s[j]).key())
}

/// A method whose return type mentions `Self` or the implementing type keeps
/// its body.
pub open spec fn keeps_body(ret: Option<Seq<char>>, struct_name: Seq<char>) -> bool {
    match ret {
        Some(t) => occurs_in(t, "Self"@) || occurs_in(t, last_segment(struct_name)),
        None => false,
    }
}

/// Trait methods that are selected (all of them for a `whole` trait) and parse; bodies are kept.
pub open spec fn trait_member_rows(s: Seq<InnerFnItem>, whole: bool, i: Set<Seq<char>>) -> Seq<(Seq<char>, Seq<char>)>
    decreases s.len(),
{
    if s.len() == 0 {
        Seq::empty()
    } else {
        let x = s.last();
        trait_member_rows(s.drop_last(), whole, i) + if (whole || i.contains(x.name@)) && parses(ParseKind::TraitMember, x.codes@) {
            seq![(x.name@, x.codes@)]
        } else {
            Seq::empty()
        }
    }
}

/// Impl methods that are selected and parse. A method keeps its body when it
/// is named directly or when its return type mentions the implementing type;
/// otherwise it is rendered as its stub, also when the block is reached
/// through the name of its type or trait.
pub open spec fn impl_member_rows(
    s: Seq<InnerFnItem>,
    whole: bool,
    struct_name: Seq<char>,
    d: Set<Seq<char>>,
    i: Set<Seq<char>>,
) -> Seq<(Seq<char>, Seq<char>)>
    decreases s.len(),
{
    if s.len() == 0 {
        Seq::empty()
    } else {
        let x = s.last();
        let keep = d.contains(x.name@) || keeps_body(return_type_of(x.codes@), struct_name);
        impl_member_rows(s.drop_last(), whole, struct_name, d, i) + if (whole || i.contains(x.name@))
            && parses(ParseKind::ImplMember, x.codes@) && (keep || stub_of(x.codes@) is Some) {
            seq![(x.name@, if keep {
                x.codes@
            } else {
                stub_of(x.codes@)->0
            })]
        } else {
            Seq::empty()
        }
    }
}

/// A trait or an impl block as it is rendered.
pub struct CompoundModel {
    pub name: Seq<char>,
    pub header: Seq<char>,
    pub types: Seq<Seq<char>>,
    pub consts: Seq<Seq<char>>,
    pub fns: Seq<(Seq<char>, Seq<char>)>,
}

pub open spec fn trait_model(t: TraitItem, i: Set<Seq<char>>) -> CompoundModel {
    let whole = i.contains(t.name@);
    CompoundModel {
        name: t.name@,
        header: header_of(emptied_block_of(t.codes@)->0),
        types: if whole { texts(t.types@, ParseKind::TraitMember) } else { Seq::empty() },
        consts: if whole { texts(t.consts@, ParseKind::TraitMember) } else { Seq::empty() },
        fns: trait_member_rows(t.fns@, whole, i),
    }
}

pub open spec fn trait_included(t: TraitItem, i: Set<Seq<char>>) -> bool {
    emptied_block_of(t.codes@) is Some && (i.contains(t.name@) || any_named(t.fns@, i))
}

pub open spec fn trait_rows(s: Seq<TraitItem>, i: Set<Seq<char>>) -> Seq<CompoundModel>
    decreases s.len(),
{
    if s.len() == 0 {
        Seq::empty()
    } else {
        trait_rows(s.drop_last(), i) + if trait_included(s.last(), i) {
            seq![trait_model(s.last(), i)]
        } else {
            Seq::empty()
        }
    }
}

/// The block is found under the name of its type or of its trait.
pub open spec fn impl_named(it: ImplItem, s: Set<Seq<char>>) -> bool {
    s.contains(it.struct_name@) || (it.trait_name is Some && s.contains(it.trait_name->0@))
}

pub open spec fn impl_model(it: ImplItem, d: Set<Seq<char>>, i: Set<Seq<char>>) -> CompoundModel {
    let whole = impl_named(it, i);
    CompoundModel {
        name: it.name@,
        header: header_of(emptied_block_of(it.codes@)->0),
        types: if whole { texts(it.types@, ParseKind::ImplMember) } else { Seq::empty() },
        consts: if whole { texts(it.consts@, ParseKind::ImplMember) } else { Seq::empty() },
        fns: impl_member_rows(it.fns@, whole, it.struct_name@, d, i),
    }
}

pub open spec fn impl_included(it: ImplItem, i: Set<Seq<char>>) -> bool {
    emptied_block_of(it.codes@) is Some && (impl_named(it, i) || any_named(it.fns@, i))
}

pub open spec fn impl_rows(s: Seq<ImplItem>, d: Set<Seq<char>>, i: Set<Seq<char>>) -> Seq<CompoundModel>
    decreases s.len(),
{
    if s.len() == 0 {
        Seq::empty()
    } else {
        impl_rows(s.drop_last(), d, i) + if impl_included(s.last(), i) {
            seq![impl_model(s.last(), d, i)]
        } else {
            Seq::empty()
        }
    }
}


/// A declaration as it is rendered: its name and its text.
pub struct RenderedItem {
    pub name: String,
    pub codes: String,
}

impl View for RenderedItem {
    type V = (Seq<char>, Seq<char>);

    open spec fn view(&self) -> (Seq<char>, Seq<char>) {
        (self.name@, self.codes@)
    }
}

/// A trait or impl block as it is rendered: its opening line and the members kept.
pub struct RenderedCompound {
    pub name: String,
    pub header: String,
    pub types: Vec<String>,
    pub consts: Vec<String>,
    pub fns: Vec<RenderedItem>,
}

pub open spec fn text_views(s: Seq<String>) -> Seq<Seq<char>> {
    s.map_values(|x: String| x@)
}

pub open spec fn row_views(s: Seq<RenderedItem>) -> Seq<(Seq<char>, Seq<char>)> {
    s.map_values(|x: RenderedItem| x@)
}

impl View for RenderedCompound {
    type V = CompoundModel;

    open spec fn view(&self) -> CompoundModel {
        CompoundModel {
            name: self.name@,
            header: self.header@,
            types: text_views(self.types@),
            consts: text_views(self.consts@),
            fns: row_views(self.fns@),
        }
    }
}

/// Whether `k` is one of the names of the name-ordered list `v`.
pub fn contains_name(v: &Vec<String>, k: &str) -> (r: bool)
    requires
        sorted_by_key(v@),
    ensures
        r == name_set(v@).contains(k@),
{
    find_key(v, k).is_some()
}

/// Appends the texts of the declarations of `s` that parse.
fn collect_texts<T: Coded>(s: &Vec<T>, k: &ParseKind, out: &mut Vec<String>)
    ensures
        text_views(final(out)@) == text_views(old(out)@) + texts(s@, *k),
{
    let mut j: usize = 0;
    while j < s.len()
        invariant
            j <= s.len(),
            text_views(out@) == text_views(old(out)@) + texts(s@.take(j as int), *k),
        decreases s.len() - j,
    {
        proof {
            assert(s@.take(j + 1).drop_last() =~= s@.take(j as int));
            assert(s@.take(j + 1).last() == s@[j as int]);
        }
        let t = s[j].text_str();
        if parses_as(k, t) {
            let ghost before = out@;
            out.push(t.to_owned());
            assert(text_views(out@) =~= text_views(before).push(t@));
        }
        j = j + 1;
        assert(text_views(out@) =~= text_views(old(out)@) + texts(s@.take(j as int), *k));
    }
    assert(s@.take(j as int) =~= s@);
}

/// The rows of `s` for the names `d` (direct) and `i` (reached).
fn collect_rows<T: Keyed + Coded>(s: &Vec<T>, d: &Vec<String>, i: &Vec<String>, stubbable: bool) -> (r: Vec<RenderedItem>)
    requires
        sorted_by_key(d@),
        sorted_by_key(i@),
    ensures
        row_views(r@) == rows(s@, name_set(d@), name_set(i@), stubbable),
{
    let mut out: Vec<RenderedItem> = Vec::new();
    let mut j: usize = 0;
    while j < s.len()
        invariant
            j <= s.len(),
            sorted_by_key(d@),
            sorted_by_key(i@),
            row_views(out@) == rows(s@.take(j as int), name_set(d@), name_set(i@), stubbable),
        decreases s.len() - j,
    {
        proof {
            assert(s@.take(j + 1).drop_last() =~= s@.take(j as int));
            assert(s@.take(j + 1).last() == s@[j as int]);
        }
        let key = s[j].key_str();
        let t = s[j].text_str();
        if contains_name(i, key) && parses_as(&ParseKind::Item, t) {
            let rendered = if stubbable && !contains_name(d, key) {
                function_stub(t)
            } else {
                Some(t.to_owned())
            };
            match rendered {
                Some(c) => {
                    let ghost before = out@;
                    out.push(RenderedItem { name: key.to_owned(), codes: c });
                    assert(row_views(out@) =~= row_views(before).push((key@, c@)));
                },
                None => {},
            }
        }
        j = j + 1;
        assert(row_views(out@) =~= rows(s@.take(j as int), name_set(d@), name_set(i@), stubbable));
    }
    assert(s@.take(j as int) =~= s@);
    out
}

/// Whether some declaration of `s` is named in `i`.
fn any_named_in<T: Keyed>(s: &Vec<T>, i: &Vec<String>) -> (r: bool)
    requires
        sorted_by_key(i@),
    ensures
        r == any_named(s@, name_set(i@)),
{
    let mut j: usize = 0;
    while j < s.len()
        invariant
            j <= s.len(),
            sorted_by_key(i@),
            forall|q: int| 0 <= q < j ==> !name_set(i@).contains((#[trigger] s@[q]).key()),
        decreases s.len() - j,
    {
        if contains_name(i, s[j].key_str()) {
            return true;
        }
        j = j + 1;
    }
    false
}

/// The opening of a trait or impl block from the block printed with its
/// members removed: everything before its closing brace.
pub fn header_text(e: &str) -> (r: String)
    ensures
        r@ == header_of(e@),
{
    let cs = chars_of(e);
    match find_last(&cs, '}') {
        Some(k) => e.substring_char(0, k).to_owned(),
        None => e.to_owned(),
    }
}

/// Whether a method with the declared return type `ret` keeps its body in a
/// block for the type `struct_name`: the type mentions `Self` or the last
/// segment of `struct_name`.
pub fn returns_own_type(ret: &Option<String>, struct_name: &str) -> (r: bool)
    ensures
        r == keeps_body(opt_text(*ret), struct_name@),
{
    match ret {
        Some(t) => {
            let own = path_last_segment(struct_name);
            contains_text(t.as_str(), "Self") || contains_text(t.as_str(), own.as_str())
        },
        None => false,
    }
}


fn trait_members(s: &Vec<InnerFnItem>, whole: bool, i: &Vec<String>) -> (r: Vec<RenderedItem>)
    requires
        sorted_by_key(i@),
    ensures
        row_views(r@) == trait_member_rows(s@, whole, name_set(i@)),
{
    let mut out: Vec<RenderedItem> = Vec::new();
    let mut j: usize = 0;
    while j < s.len()
        invariant
            j <= s.len(),
            sorted_by_key(i@),
            row_views(out@) == trait_member_rows(s@.take(j as int), whole, name_set(i@)),
        decreases s.len() - j,
    {
        proof {
            assert(s@.take(j + 1).drop_last() =~= s@.take(j as int));
            assert(s@.take(j + 1).last() == s@[j as int]);
        }
        let m = &s[j];
        if (whole || contains_name(i, m.name.as_str())) && parses_as(&ParseKind::TraitMember, m.codes.as_str()) {
            let ghost before = out@;
            out.push(RenderedItem { name: m.name.clone(), codes: m.codes.clone() });
            assert(row_views(out@) =~= row_views(before).push((m.name@, m.codes@)));
        }
        j = j + 1;
        assert(row_views(out@) =~= trait_member_rows(s@.take(j as int), whole, name_set(i@)));
    }
    assert(s@.take(j as int) =~= s@);
    out
}

fn impl_members(
    s: &Vec<InnerFnItem>,
    whole: bool,
    struct_name: &str,
    d: &Vec<String>,
    i: &Vec<String>,
) -> (r: Vec<RenderedItem>)
    requires
        sorted_by_key(d@),
        sorted_by_key(i@),
    ensures
        row_views(r@) == impl_member_rows(s@, whole, struct_name@, name_set(d@), name_set(i@)),
{
    let mut out: Vec<RenderedItem> = Vec::new();
    let mut j: usize = 0;
    while j < s.len()
        invariant
            j <= s.len(),
            sorted_by_key(d@),
            sorted_by_key(i@),
            row_views(out@) == impl_member_rows(s@.take(j as int), whole, struct_name@, name_set(d@), name_set(i@)),
        decreases s.len() - j,
    {
        proof {
            assert(s@.take(j + 1).drop_last() =~= s@.take(j as int));
            assert(s@.take(j + 1).last() == s@[j as int]);
        }
        let m = &s[j];
        if (whole || contains_name(i, m.name.as_str())) && parses_as(&ParseKind::ImplMember, m.codes.as_str()) {
            let full = contains_name(d, m.name.as_str())
                || returns_own_type(&method_return_type(m.codes.as_str()), struct_name);
            let rendered = if full {
                Some(m.codes.clone())
            } else {
                function_stub(m.codes.as_str())
            };
            match rendered {
                Some(c) => {
                    let ghost before = out@;
                    out.push(RenderedItem { name: m.name.clone(), codes: c });
                    assert(row_views(out@) =~= row_views(before).push((m.name@, c@)));
                },
                None => {},
            }
        }
        j = j + 1;
        assert(row_views(out@) =~= impl_member_rows(s@.take(j as int), whole, struct_name@, name_set(d@), name_set(i@)));
    }
    assert(s@.take(j as int) =~= s@);
    out
}

/// The rendering of trait `t` when the names `i` are reached, if it is rendered at all.
fn build_trait(t: &TraitItem, i: &Vec<String>) -> (r: Option<RenderedCompound>)
    requires
        sorted_by_key(i@),
    ensures
        r is Some <==> trait_included(*t, name_set(i@)),
        r is Some ==> r->0@ == trait_model(*t, name_set(i@)),
{
    let emptied = match emptied_block(t.codes.as_str()) {
        Some(e) => e,
        None => return None,
    };
    let whole = contains_name(i, t.name.as_str());
    if !whole && !any_named_in(&t.fns, i) {
        return None;
    }
    let mut types: Vec<String> = Vec::new();
    let mut consts: Vec<String> = Vec::new();
    if whole {
        collect_texts(&t.types, &ParseKind::TraitMember, &mut types);
        collect_texts(&t.consts, &ParseKind::TraitMember, &mut consts);
    }
    assert(text_views(types@) =~= (if whole { texts(t.types@, ParseKind::TraitMember) } else { Seq::empty() }));
    assert(text_views(consts@) =~= (if whole { texts(t.consts@, ParseKind::TraitMember) } else { Seq::empty() }));
    let fns = trait_members(&t.fns, whole, i);
    Some(RenderedCompound { name: t.name.clone(), header: header_text(emptied.as_str()), types, consts, fns })
}

fn impl_named_in(it: &ImplItem, s: &Vec<String>) -> (r: bool)
    requires
        sorted_by_key(s@),
    ensures
        r == impl_named(*it, name_set(s@)),
{
    if contains_name(s, it.struct_name.as_str()) {
        return true;
    }
    match &it.trait_name {
        Some(t) => contains_name(s, t.as_str()),
        None => false,
    }
}

/// The rendering of impl block `it` for the names `d` (direct) and `i` (reached).
fn build_impl(it: &ImplItem, d: &Vec<String>, i: &Vec<String>) -> (r: Option<RenderedCompound>)
    requires
        sorted_by_key(d@),
        sorted_by_key(i@),
    ensures
        r is Some <==> impl_included(*it, name_set(i@)),
        r is Some ==> r->0@ == impl_model(*it, name_set(d@), name_set(i@)),
{
    let emptied = match emptied_block(it.codes.as_str()) {
        Some(e) => e,
        None => return None,
    };
    let whole = impl_named_in(it, i);
    if !whole && !any_named_in(&it.fns, i) {
        return None;
    }
    let mut types: Vec<String> = Vec::new();
    let mut consts: Vec<String> = Vec::new();
    if whole {
        collect_texts(&it.types, &ParseKind::ImplMember, &mut types);
        collect_texts(&it.consts, &ParseKind::ImplMember, &mut consts);
    }
    assert(text_views(types@) =~= (if whole { texts(it.types@, ParseKind::ImplMember) } else { Seq::empty() }));
    assert(text_views(consts@) =~= (if whole { texts(it.consts@, ParseKind::ImplMember) } else { Seq::empty() }));
    let fns = impl_members(&it.fns, whole, it.struct_name.as_str(), d, i);
    Some(RenderedCompound { name: it.name.clone(), header: header_text(emptied.as_str()), types, consts, fns })
}

pub open spec fn compound_views(s: Seq<RenderedCompound>) -> Seq<CompoundModel> {
    s.map_values(|x: RenderedCompound| x@)
}

fn collect_traits(s: &Vec<TraitItem>, i: &Vec<String>) -> (r: Vec<RenderedCompound>)
    requires
        sorted_by_key(i@),
    ensures
        compound_views(r@) == trait_rows(s@, name_set(i@)),
{
    let mut out: Vec<RenderedCompound> = Vec::new();
    let mut j: usize = 0;
    while j < s.len()
        invariant
            j <= s.len(),
            sorted_by_key(i@),
            compound_views(out@) == trait_rows(s@.take(j as int), name_set(i@)),
        decreases s.len() - j,
    {
        proof {
            assert(s@.take(j + 1).drop_last() =~= s@.take(j as int));
            assert(s@.take(j + 1).last() == s@[j as int]);
        }
        match build_trait(&s[j], i) {
            Some(c) => {
                let ghost before = out@;
                let ghost cv = c@;
                out.push(c);
                assert(compound_views(out@) =~= compound_views(before).push(cv));
            },
            None => {},
        }
        j = j + 1;
        assert(compound_views(out@) =~= trait_rows(s@.take(j as int), name_set(i@)));
    }
    assert(s@.take(j as int) =~= s@);
    out
}

fn collect_impls(s: &Vec<ImplItem>, d: &Vec<String>, i: &Vec<String>) -> (r: Vec<RenderedCompound>)
    requires
        sorted_by_key(d@),
        sorted_by_key(i@),
    ensures
        compound_views(r@) == impl_rows(s@, name_set(d@), name_set(i@)),
{
    let mut out: Vec<RenderedCompound> = Vec::new();
    let mut j: usize = 0;
    while j < s.len()
        invariant
            j <= s.len(),
            sorted_by_key(d@),
            sorted_by_key(i@),
            compound_views(out@) == impl_rows(s@.take(j as int), name_set(d@), name_set(i@)),
        decreases s.len() - j,
    {
        proof {
            assert(s@.take(j + 1).drop_last() =~= s@.take(j as int));
            assert(s@.take(j + 1).last() == s@[j as int]);
        }
        match build_impl(&s[j], d, i) {
            Some(c) => {
                let ghost before = out@;
                let ghost cv = c@;
                out.push(c);
                assert(compound_views(out@) =~= compound_views(before).push(cv));
            },
            None => {},
        }
        j = j + 1;
        assert(compound_views(out@) =~= impl_rows(s@.take(j as int), name_set(d@), name_set(i@)));
    }
    assert(s@.take(j as int) =~= s@);
    out
}


/// The declarations of one module selected for one entry point, each kind in
/// its own list.
pub struct FileModel {
    pub name: Seq<char>,
    pub uses: Seq<Seq<char>>,
    pub statics: Seq<Seq<char>>,
    pub consts: Seq<Seq<char>>,
    pub fns: Seq<(Seq<char>, Seq<char>)>,
    pub macros: Seq<Seq<char>>,
    pub ty_aliases: Seq<Seq<char>>,
    pub opaque_tys: Seq<Seq<char>>,
    pub enums: Seq<(Seq<char>, Seq<char>)>,
    pub structs: Seq<(Seq<char>, Seq<char>)>,
    pub unions: Seq<(Seq<char>, Seq<char>)>,
    pub traits: Seq<CompoundModel>,
    pub trait_aliases: Seq<Seq<char>>,
    pub impls: Seq<CompoundModel>,
}

/// What module `m` contributes when the names `d` are named directly and the
/// names `i` are reached. Its imports, statics, constants, macros and aliases
/// come along whole; the other declarations only as they are selected.
pub open spec fn file_model(m: ModContext, d: Set<Seq<char>>, i: Set<Seq<char>>) -> FileModel {
    FileModel {
        name: m.name@,
        uses: texts(m.uses@, ParseKind::Item),
        statics: texts(m.statics@, ParseKind::Item),
        consts: texts(m.consts@, ParseKind::Item),
        fns: rows(m.fns@, d, i, true),
        macros: texts(m.macros@, ParseKind::Item),
        ty_aliases: texts(m.ty_aliases@, ParseKind::Item),
        opaque_tys: texts(m.opaque_tys@, ParseKind::Item),
        enums: rows(m.enums@, d, i, false),
        structs: rows(m.structs@, d, i, false),
        unions: rows(m.unions@, d, i, false),
        traits: trait_rows(m.traits@, i),
        trait_aliases: texts(m.trait_aliases@, ParseKind::Item),
        impls: impl_rows(m.impls@, d, i),
    }
}

/// The contributions of the modules, in the order in which the direct names
/// `d`, then the reached names `i`, first touch them.
pub open spec fn files_model(mods: Seq<ModContext>, d: Seq<Seq<char>>, i: Seq<Seq<char>>) -> Seq<FileModel> {
    touch_order(mods, d, i).map_values(|k: int| file_model(mods[k], d.to_set(), i.to_set()))
}

pub proof fn lemma_name_set_views(v: Seq<String>)
    ensures
        name_set(v) == text_views(v).to_set(),
{
    assert forall|k: Seq<char>| name_set(v).contains(k) implies text_views(v).to_set().contains(k) by {
        let j = choose|j: int| 0 <= j < v.len() && #[trigger] v[j].key() == k;
        assert(text_views(v)[j] == k);
    }
    assert forall|k: Seq<char>| text_views(v).to_set().contains(k) implies name_set(v).contains(k) by {
        let j = choose|j: int| 0 <= j < text_views(v).len() && text_views(v)[j] == k;
        assert(v[j].key() == k);
    }
    assert(name_set(v) =~= text_views(v).to_set());
}

/// The selected declarations of one module.
pub struct SynFile {
    pub name: String,
    pub uses: Vec<String>,
    pub statics: Vec<String>,
    pub consts: Vec<String>,
    pub fns: Vec<RenderedItem>,
    pub macros: Vec<String>,
    pub ty_aliases: Vec<String>,
    pub opaque_tys: Vec<String>,
    pub enums: Vec<RenderedItem>,
    pub structs: Vec<RenderedItem>,
    pub unions: Vec<RenderedItem>,
    pub traits: Vec<RenderedCompound>,
    pub trait_aliases: Vec<String>,
    pub impls: Vec<RenderedCompound>,
}

impl View for SynFile {
    type V = FileModel;

    open spec fn view(&self) -> FileModel {
        FileModel {
            name: self.name@,
            uses: text_views(self.uses@),
            statics: text_views(self.statics@),
            consts: text_views(self.consts@),
            fns: row_views(self.fns@),
            macros: text_views(self.macros@),
            ty_aliases: text_views(self.ty_aliases@),
            opaque_tys: text_views(self.opaque_tys@),
            enums: row_views(self.enums@),
            structs: row_views(self.structs@),
            unions: row_views(self.unions@),
            traits: compound_views(self.traits@),
            trait_aliases: text_views(self.trait_aliases@),
            impls: compound_views(self.impls@),
        }
    }
}

pub open spec fn file_views(s: Seq<SynFile>) -> Seq<FileModel> {
    s.map_values(|x: SynFile| x@)
}

impl SynFile {
    /// What module `m` contributes for the direct names `d` and the reached names `i`.
    pub fn new(m: &ModContext, d: &Vec<String>, i: &Vec<String>) -> (r: SynFile)
        requires
            sorted_by_key(d@),
            sorted_by_key(i@),
        ensures
            r@ == file_model(*m, name_set(d@), name_set(i@)),
    {
        let mut uses: Vec<String> = Vec::new();
        collect_texts(&m.uses, &ParseKind::Item, &mut uses);
        let mut statics: Vec<String> = Vec::new();
        collect_texts(&m.statics, &ParseKind::Item, &mut statics);
        let mut consts: Vec<String> = Vec::new();
        collect_texts(&m.consts, &ParseKind::Item, &mut consts);
        let mut macros: Vec<String> = Vec::new();
        collect_texts(&m.macros, &ParseKind::Item, &mut macros);
        let mut ty_aliases: Vec<String> = Vec::new();
        collect_texts(&m.ty_aliases, &ParseKind::Item, &mut ty_aliases);
        let mut opaque_tys: Vec<String> = Vec::new();
        collect_texts(&m.opaque_tys, &ParseKind::Item, &mut opaque_tys);
        let mut trait_aliases: Vec<String> = Vec::new();
        collect_texts(&m.trait_aliases, &ParseKind::Item, &mut trait_aliases);
        proof {
            assert(text_views(Seq::<String>::empty()) =~= Seq::<Seq<char>>::empty());
        }
        let r = SynFile {
            name: m.name.clone(),
            uses,
            statics,
            consts,
            fns: collect_rows(&m.fns, d, i, true),
            macros,
            ty_aliases,
            opaque_tys,
            enums: collect_rows(&m.enums, d, i, false),
            structs: collect_rows(&m.structs, d, i, false),
            unions: collect_rows(&m.unions, d, i, false),
            traits: collect_traits(&m.traits, i),
            trait_aliases,
            impls: collect_impls(&m.impls, d, i),
        };
        assert(r@ =~= file_model(*m, name_set(d@), name_set(i@)));
        r
    }

}

/// The contributions of the modules touched by the direct names `d` and the
/// reached names `i`, in the order in which they are first touched.
pub fn parse_applications(mods: &Vec<ModContext>, d: &Vec<String>, i: &Vec<String>) -> (r: Vec<SynFile>)
    requires
        sorted_by_key(d@),
        sorted_by_key(i@),
    ensures
        file_views(r@) == files_model(mods@, text_views(d@), text_views(i@)),
{
    let mut order: Vec<usize> = Vec::new();
    visit_all(mods, d, true, &mut order);
    visit_all(mods, i, false, &mut order);
    proof {
        assert(d@.map_values(|s: String| s@) =~= text_views(d@));
        assert(i@.map_values(|s: String| s@) =~= text_views(i@));
        assert(index_views(Seq::<usize>::empty()) =~= Seq::<int>::empty());
        lemma_name_set_views(d@);
        lemma_name_set_views(i@);
    }
    let ghost want = files_model(mods@, text_views(d@), text_views(i@));
    let mut out: Vec<SynFile> = Vec::new();
    let mut j: usize = 0;
    while j < order.len()
        invariant
            j <= order.len(),
            sorted_by_key(d@),
            sorted_by_key(i@),
            forall|q: int| 0 <= q < order@.len() ==> order@[q] < mods@.len(),
            index_views(order@) == touch_order(mods@, text_views(d@), text_views(i@)),
            name_set(d@) == text_views(d@).to_set(),
            name_set(i@) == text_views(i@).to_set(),
            want == files_model(mods@, text_views(d@), text_views(i@)),
            file_views(out@) == want.take(j as int),
        decreases order.len() - j,
    {
        let k = order[j];
        let f = SynFile::new(&mods[k], d, i);
        let ghost before = out@;
        let ghost fv = f@;
        out.push(f);
        proof {
            assert(index_views(order@)[j as int] == k as int);
            assert(want[j as int] == fv);
            assert(file_views(out@) =~= file_views(before).push(fv));
            assert(want.take(j + 1) =~= want.take(j as int).push(want[j as int]));
        }
        j = j + 1;
    }
    assert(want.take(j as int) =~= want);
    out
}

} // verus!
