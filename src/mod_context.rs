use vstd::prelude::*;
use crate::keyed::{Keyed, sorted_by_key, keys_of, inserted_into, insert_keyed, find_key, is_sorted};
use crate::text::same_text;
use crate::text::{str_lt, lemma_str_lt_order};

verus! {

/// Where a declaration stands: a file and a byte range `[begin, end)` in it.
pub struct SourceInfo {
    pub file: String,
    pub begin: usize,
    pub end: usize,
}

impl SourceInfo {
    pub fn new(file: String, begin: usize, end: usize) -> (r: SourceInfo)
        ensures
            r.file@ == file@,
            r.begin == begin,
            r.end == end,
    {
        SourceInfo { file, begin, end }
    }

    /// The span covers no text.
    pub open spec fn spec_is_empty(&self) -> bool {
        self.end <= self.begin
    }

    /// This span lies within `self`.
    pub open spec fn spans(&self, other: &SourceInfo) -> bool {
        &&& self.file@ == other.file@
        &&& self.begin <= other.begin
        &&& other.end <= self.end
    }

    pub fn is_empty(&self) -> (r: bool)
        ensures
            r == self.spec_is_empty(),
    {
        self.end <= self.begin
    }

    pub fn contains(&self, other: &SourceInfo) -> (r: bool)
        ensures
            r == self.spans(other),
    {
        self.file == other.file && self.begin <= other.begin && other.end <= self.end
    }
}

/// An `extern crate` declaration. Declarations of this kind are told apart by their text.
pub struct ExternCrateItem {
    pub codes: String,
    pub source_info: SourceInfo,
}

impl Keyed for ExternCrateItem {
    open spec fn key(&self) -> Seq<char> {
        self.codes@
    }

    fn key_str(&self) -> (r: &str) {
        self.codes.as_str()
    }
}

/// An import. Declarations of this kind are told apart by their text.
pub struct UseItem {
    pub codes: String,
    pub source_info: SourceInfo,
}

impl Keyed for UseItem {
    open spec fn key(&self) -> Seq<char> {
        self.codes@
    }

    fn key_str(&self) -> (r: &str) {
        self.codes.as_str()
    }
}

/// A `static` declaration. Declarations of this kind are told apart by their text.
pub struct StaticItem {
    pub codes: String,
    pub source_info: SourceInfo,
}

impl Keyed for StaticItem {
    open spec fn key(&self) -> Seq<char> {
        self.codes@
    }

    fn key_str(&self) -> (r: &str) {
        self.codes.as_str()
    }
}

/// A `const` declaration. Declarations of this kind are told apart by their text.
pub struct ConstItem {
    pub codes: String,
    pub source_info: SourceInfo,
}

impl Keyed for ConstItem {
    open spec fn key(&self) -> Seq<char> {
        self.codes@
    }

    fn key_str(&self) -> (r: &str) {
        self.codes.as_str()
    }
}

/// A macro definition. Declarations of this kind are told apart by their text.
pub struct MacroItem {
    pub codes: String,
    pub source_info: SourceInfo,
}

impl Keyed for MacroItem {
    open spec fn key(&self) -> Seq<char> {
        self.codes@
    }

    fn key_str(&self) -> (r: &str) {
        self.codes.as_str()
    }
}

/// A type alias. Declarations of this kind are told apart by their text.
pub struct TyAliasItem {
    pub codes: String,
    pub source_info: SourceInfo,
}

impl Keyed for TyAliasItem {
    open spec fn key(&self) -> Seq<char> {
        self.codes@
    }

    fn key_str(&self) -> (r: &str) {
        self.codes.as_str()
    }
}

/// An opaque type alias. Declarations of this kind are told apart by their text.
pub struct OpaqueTyItem {
    pub codes: String,
    pub source_info: SourceInfo,
}

impl Keyed for OpaqueTyItem {
    open spec fn key(&self) -> Seq<char> {
        self.codes@
    }

    fn key_str(&self) -> (r: &str) {
        self.codes.as_str()
    }
}

/// A trait alias. Declarations of this kind are told apart by their text.
pub struct TraitAliasItem {
    pub codes: String,
    pub source_info: SourceInfo,
}

impl Keyed for TraitAliasItem {
    open spec fn key(&self) -> Seq<char> {
        self.codes@
    }

    fn key_str(&self) -> (r: &str) {
        self.codes.as_str()
    }
}

/// An associated type of a trait or an impl block. Declarations of this kind are told apart by their text.
pub struct InnerTypeItem {
    pub codes: String,
    pub source_info: SourceInfo,
}

impl Keyed for InnerTypeItem {
    open spec fn key(&self) -> Seq<char> {
        self.codes@
    }

    fn key_str(&self) -> (r: &str) {
        self.codes.as_str()
    }
}

/// An associated constant of a trait or an impl block. Declarations of this kind are told apart by their text.
pub struct InnerConstItem {
    pub codes: String,
    pub source_info: SourceInfo,
}

impl Keyed for InnerConstItem {
    open spec fn key(&self) -> Seq<char> {
        self.codes@
    }

    fn key_str(&self) -> (r: &str) {
        self.codes.as_str()
    }
}

/// A free function. Declarations of this kind are told apart by their qualified name.
pub struct FnItem {
    pub name: String,
    pub codes: String,
    pub source_info: SourceInfo,
    pub applications: Vec<String>,
}

impl Keyed for FnItem {
    open spec fn key(&self) -> Seq<char> {
        self.name@
    }

    fn key_str(&self) -> (r: &str) {
        self.name.as_str()
    }
}

/// A method of a trait or an impl block. Declarations of this kind are told apart by their qualified name.
pub struct InnerFnItem {
    pub name: String,
    pub codes: String,
    pub source_info: SourceInfo,
    pub applications: Vec<String>,
}

impl Keyed for InnerFnItem {
    open spec fn key(&self) -> Seq<char> {
        self.name@
    }

    fn key_str(&self) -> (r: &str) {
        self.name.as_str()
    }
}

/// An enum. `derives` holds the names of the traits derived for it. Declarations of this kind are told apart by their qualified name.
pub struct EnumItem {
    pub name: String,
    pub codes: String,
    pub derives: Vec<String>,
    pub source_info: SourceInfo,
    pub applications: Vec<String>,
}

impl Keyed for EnumItem {
    open spec fn key(&self) -> Seq<char> {
        self.name@
    }

    fn key_str(&self) -> (r: &str) {
        self.name.as_str()
    }
}

/// A struct. `derives` holds the names of the traits derived for it. Declarations of this kind are told apart by their qualified name.
pub struct StructItem {
    pub name: String,
    pub codes: String,
    pub derives: Vec<String>,
    pub source_info: SourceInfo,
    pub applications: Vec<String>,
}

impl Keyed for StructItem {
    open spec fn key(&self) -> Seq<char> {
        self.name@
    }

    fn key_str(&self) -> (r: &str) {
        self.name.as_str()
    }
}

/// A union. `derives` holds the names of the traits derived for it. Declarations of this kind are told apart by their qualified name.
pub struct UnionItem {
    pub name: String,
    pub codes: String,
    pub derives: Vec<String>,
    pub source_info: SourceInfo,
    pub applications: Vec<String>,
}

impl Keyed for UnionItem {
    open spec fn key(&self) -> Seq<char> {
        self.name@
    }

    fn key_str(&self) -> (r: &str) {
        self.name.as_str()
    }
}

/// A trait with its associated types, constants and methods. Declarations of this kind are told apart by their qualified name.
pub struct TraitItem {
    pub name: String,
    pub codes: String,
    pub source_info: SourceInfo,
    pub types: Vec<InnerTypeItem>,
    pub consts: Vec<InnerConstItem>,
    pub fns: Vec<InnerFnItem>,
    pub applications: Vec<String>,
}

impl Keyed for TraitItem {
    open spec fn key(&self) -> Seq<char> {
        self.name@
    }

    fn key_str(&self) -> (r: &str) {
        self.name.as_str()
    }
}

/// An impl block for the type `struct_name`, of the trait `trait_name` if it has one. Declarations of this kind are told apart by their qualified name.
pub struct ImplItem {
    pub name: String,
    pub struct_name: String,
    pub trait_name: Option<String>,
    pub codes: String,
    pub source_info: SourceInfo,
    pub types: Vec<InnerTypeItem>,
    pub consts: Vec<InnerConstItem>,
    pub fns: Vec<InnerFnItem>,
    pub applications: Vec<String>,
}

impl Keyed for ImplItem {
    open spec fn key(&self) -> Seq<char> {
        self.name@
    }

    fn key_str(&self) -> (r: &str) {
        self.name.as_str()
    }
}



/// The derive names joined with `, `.
pub open spec fn join_marks(s: Seq<String>) -> Seq<char>
    decreases s.len(),
{
    if s.len() == 0 {
        Seq::empty()
    } else if s.len() == 1 {
        s[0]@
    } else {
        join_marks(s.drop_last()) + ", "@ + s.last()@
    }
}

/// `codes` under a `#[derive(..)]` line naming `ds`; `codes` itself when `ds` is empty.
pub open spec fn derive_prefixed(codes: Seq<char>, ds: Seq<String>) -> Seq<char> {
    if ds.len() == 0 {
        codes
    } else {
        "#[derive("@ + join_marks(ds) + ")]\n"@ + codes
    }
}

/// The `#[derive(..)]` line for a non-empty list of derive names.
pub fn derive_line(ds: &Vec<String>) -> (r: String)
    ensures
        r@ == "#[derive("@ + join_marks(ds@) + ")]\n"@,
{
    let mut body = String::new();
    let mut i: usize = 0;
    while i < ds.len()
        invariant
            i <= ds.len(),
            body@ == join_marks(ds@.take(i as int)),
        decreases ds.len() - i,
    {
        if i > 0 {
            body.append(", ");
        }
        body.append(ds[i].as_str());
        proof {
            assert(ds@.take(i + 1).drop_last() =~= ds@.take(i as int));
            if i == 0 {
                assert(join_marks(ds@.take(0)) =~= Seq::<char>::empty());
                assert(body@ =~= join_marks(ds@.take(1)));
            }
        }
        i = i + 1;
    }
    assert(ds@.take(i as int) =~= ds@);
    let mut r = String::from_str("#[derive(");
    r.append(body.as_str());
    r.append(")]\n");
    r
}

/// A declaration with its source text.
pub trait Coded {
    spec fn text(&self) -> Seq<char>;

    fn text_str(&self) -> (r: &str)
        ensures
            r@ == self.text(),
    ;
}

impl Coded for ExternCrateItem {
    open spec fn text(&self) -> Seq<char> {
        self.codes@
    }

    fn text_str(&self) -> (r: &str) {
        self.codes.as_str()
    }
}

impl Coded for UseItem {
    open spec fn text(&self) -> Seq<char> {
        self.codes@
    }

    fn text_str(&self) -> (r: &str) {
        self.codes.as_str()
    }
}

impl Coded for StaticItem {
    open spec fn text(&self) -> Seq<char> {
        self.codes@
    }

    fn text_str(&self) -> (r: &str) {
        self.codes.as_str()
    }
}

impl Coded for ConstItem {
    open spec fn text(&self) -> Seq<char> {
        self.codes@
    }

    fn text_str(&self) -> (r: &str) {
        self.codes.as_str()
    }
}

impl Coded for MacroItem {
    open spec fn text(&self) -> Seq<char> {
        self.codes@
    }

    fn text_str(&self) -> (r: &str) {
        self.codes.as_str()
    }
}

impl Coded for TyAliasItem {
    open spec fn text(&self) -> Seq<char> {
        self.codes@
    }

    fn text_str(&self) -> (r: &str) {
        self.codes.as_str()
    }
}

impl Coded for OpaqueTyItem {
    open spec fn text(&self) -> Seq<char> {
        self.codes@
    }

    fn text_str(&self) -> (r: &str) {
        self.codes.as_str()
    }
}

impl Coded for TraitAliasItem {
    open spec fn text(&self) -> Seq<char> {
        self.codes@
    }

    fn text_str(&self) -> (r: &str) {
        self.codes.as_str()
    }
}

impl Coded for InnerTypeItem {
    open spec fn text(&self) -> Seq<char> {
        self.codes@
    }

    fn text_str(&self) -> (r: &str) {
        self.codes.as_str()
    }
}

impl Coded for InnerConstItem {
    open spec fn text(&self) -> Seq<char> {
        self.codes@
    }

    fn text_str(&self) -> (r: &str) {
        self.codes.as_str()
    }
}

impl Coded for FnItem {
    open spec fn text(&self) -> Seq<char> {
        self.codes@
    }

    fn text_str(&self) -> (r: &str) {
        self.codes.as_str()
    }
}

impl Coded for InnerFnItem {
    open spec fn text(&self) -> Seq<char> {
        self.codes@
    }

    fn text_str(&self) -> (r: &str) {
        self.codes.as_str()
    }
}

impl Coded for EnumItem {
    open spec fn text(&self) -> Seq<char> {
        self.codes@
    }

    fn text_str(&self) -> (r: &str) {
        self.codes.as_str()
    }
}

impl Coded for StructItem {
    open spec fn text(&self) -> Seq<char> {
        self.codes@
    }

    fn text_str(&self) -> (r: &str) {
        self.codes.as_str()
    }
}

impl Coded for UnionItem {
    open spec fn text(&self) -> Seq<char> {
        self.codes@
    }

    fn text_str(&self) -> (r: &str) {
        self.codes.as_str()
    }
}

impl Coded for TraitItem {
    open spec fn text(&self) -> Seq<char> {
        self.codes@
    }

    fn text_str(&self) -> (r: &str) {
        self.codes.as_str()
    }
}

impl Coded for ImplItem {
    open spec fn text(&self) -> Seq<char> {
        self.codes@
    }

    fn text_str(&self) -> (r: &str) {
        self.codes.as_str()
    }
}

/// Every module is well formed and no two modules share a name.
pub open spec fn modules_ok(mods: Seq<ModContext>) -> bool {
    &&& forall|i: int| 0 <= i < mods.len() ==> (#[trigger] mods[i]).wf()
    &&& forall|i: int, j: int| 0 <= i < j < mods.len() ==> (#[trigger] mods[i]).name@ != (#[trigger] mods[j]).name@
}

/// A struct, enum or union: a named declaration that carries the list of
/// traits derived for it.
pub trait Annotated: Keyed + Coded + Sized {
    spec fn marks(&self) -> Seq<String>;

    /// `self` and `o` have the same name, span and references.
    spec fn same_but_marks(&self, o: &Self) -> bool;

    proof fn lemma_same_reflexive(&self)
        ensures
            self.same_but_marks(self),
    ;

    fn mark_list(&self) -> (r: &Vec<String>)
        ensures
            r@ == self.marks(),
    ;

    fn add_mark(&mut self, d: String)
        requires
            sorted_by_key(old(self).marks()),
        ensures
            inserted_into(old(self).marks(), final(self).marks(), d),
            final(self).same_but_marks(old(self)),
            final(self).key() == old(self).key(),
            final(self).text() == old(self).text(),
    ;

    fn prepend_text(&mut self, head: String)
        ensures
            final(self).text() == head@ + old(self).text(),
            final(self).marks() == old(self).marks(),
            final(self).same_but_marks(old(self)),
            final(self).key() == old(self).key(),
    ;
}

impl Annotated for StructItem {
    open spec fn marks(&self) -> Seq<String> {
        self.derives@
    }

    open spec fn same_but_marks(&self, o: &Self) -> bool {
        self.name == o.name && self.source_info == o.source_info && self.applications == o.applications
    }

    proof fn lemma_same_reflexive(&self) {
    }

    fn mark_list(&self) -> (r: &Vec<String>) {
        &self.derives
    }

    fn add_mark(&mut self, d: String) {
        insert_keyed(&mut self.derives, d);
    }

    fn prepend_text(&mut self, head: String) {
        let mut c = head;
        c.append(self.codes.as_str());
        self.codes = c;
    }
}

impl Annotated for EnumItem {
    open spec fn marks(&self) -> Seq<String> {
        self.derives@
    }

    open spec fn same_but_marks(&self, o: &Self) -> bool {
        self.name == o.name && self.source_info == o.source_info && self.applications == o.applications
    }

    proof fn lemma_same_reflexive(&self) {
    }

    fn mark_list(&self) -> (r: &Vec<String>) {
        &self.derives
    }

    fn add_mark(&mut self, d: String) {
        insert_keyed(&mut self.derives, d);
    }

    fn prepend_text(&mut self, head: String) {
        let mut c = head;
        c.append(self.codes.as_str());
        self.codes = c;
    }
}

impl Annotated for UnionItem {
    open spec fn marks(&self) -> Seq<String> {
        self.derives@
    }

    open spec fn same_but_marks(&self, o: &Self) -> bool {
        self.name == o.name && self.source_info == o.source_info && self.applications == o.applications
    }

    proof fn lemma_same_reflexive(&self) {
    }

    fn mark_list(&self) -> (r: &Vec<String>) {
        &self.derives
    }

    fn add_mark(&mut self, d: String) {
        insert_keyed(&mut self.derives, d);
    }

    fn prepend_text(&mut self, head: String) {
        let mut c = head;
        c.append(self.codes.as_str());
        self.codes = c;
    }
}

/// `n` is `o` with `d` added to the derives of the declaration named `name`.
pub open spec fn marked<T: Annotated>(o: Seq<T>, n: Seq<T>, name: Seq<char>, d: String) -> bool {
    &&& n.len() == o.len()
    &&& forall|j: int| 0 <= j < o.len() ==> if (#[trigger] o[j]).key() == name {
        &&& n[j].same_but_marks(&o[j])
        &&& n[j].key() == o[j].key()
        &&& n[j].text() == o[j].text()
        &&& inserted_into(o[j].marks(), n[j].marks(), d)
    } else {
        n[j] == o[j]
    }
}

/// `n` is `o` with each declaration's derives written into its text.
pub open spec fn prefixed<T: Annotated>(o: Seq<T>, n: Seq<T>) -> bool {
    &&& n.len() == o.len()
    &&& forall|j: int| 0 <= j < o.len() ==> {
        &&& (#[trigger] n[j]).same_but_marks(&o[j])
        &&& n[j].key() == o[j].key()
        &&& n[j].text() == derive_prefixed(o[j].text(), o[j].marks())
        &&& n[j].marks() == o[j].marks()
    }
}

pub open spec fn marks_sorted<T: Annotated>(v: Seq<T>) -> bool {
    forall|j: int| 0 <= j < v.len() ==> sorted_by_key(#[trigger] v[j].marks())
}

fn prefix_all<T: Annotated>(v: &mut Vec<T>)
    requires
        sorted_by_key(old(v)@),
        marks_sorted(old(v)@),
    ensures
        sorted_by_key(final(v)@),
        marks_sorted(final(v)@),
        prefixed(old(v)@, final(v)@),
{
    let ghost o = v@;
    let mut i: usize = 0;
    while i < v.len()
        invariant
            i <= v.len(),
            v@.len() == o.len(),
            forall|j: int| 0 <= j < i ==> {
                &&& (#[trigger] v@[j]).same_but_marks(&o[j])
                &&& v@[j].key() == o[j].key()
                &&& v@[j].text() == derive_prefixed(o[j].text(), o[j].marks())
                &&& v@[j].marks() == o[j].marks()
            },
            forall|j: int| i <= j < o.len() ==> #[trigger] v@[j] == o[j],
            sorted_by_key(v@),
            marks_sorted(v@),
        decreases o.len() - i,
    {
        let ghost before = v@;
        let mut it = v.remove(i);
        assert(it == before[i as int]);
        if it.mark_list().len() > 0 {
            let line = derive_line(it.mark_list());
            it.prepend_text(line);
        } else {
            proof {
                it.lemma_same_reflexive();
            }
        }
        v.insert(i, it);
        proof {
            assert(v@ =~= before.update(i as int, it));
            assert forall|p: int, q: int| 0 <= p < q < v@.len() implies str_lt(#[trigger] v@[p].key(), #[trigger] v@[q].key()) by {
                assert(str_lt(before[p].key(), before[q].key()));
            }
        }
        i = i + 1;
    }
}

/// Adds `d` to the derives of the declaration of `v` named `name`, if any.
fn mark_in<T: Annotated>(v: &mut Vec<T>, name: &str, d: &String) -> (found: bool)
    requires
        sorted_by_key(old(v)@),
        marks_sorted(old(v)@),
    ensures
        found == keys_of(old(v)@).contains(name@),
        found ==> marked(old(v)@, final(v)@, name@, *d),
        !found ==> *final(v) == *old(v),
        sorted_by_key(final(v)@),
        marks_sorted(final(v)@),
{
    let ghost o = v@;
    match find_key(v, name) {
        Some(i) => {
            let mut it = v.remove(i);
            assert(it == o[i as int]);
            it.add_mark(d.clone());
            v.insert(i, it);
            proof {
                assert(v@ =~= o.update(i as int, it));
                assert forall|j: int| 0 <= j < o.len() && j != i implies (#[trigger] o[j]).key() != name@ by {
                    if j < i {
                        assert(str_lt(o[j].key(), o[i as int].key()));
                    } else {
                        assert(str_lt(o[i as int].key(), o[j].key()));
                    }
                    lemma_str_lt_order(o[j].key(), o[j].key(), o[j].key());
                    lemma_str_lt_order(o[i as int].key(), o[i as int].key(), o[i as int].key());
                }
                assert forall|p: int, q: int| 0 <= p < q < v@.len() implies str_lt(#[trigger] v@[p].key(), #[trigger] v@[q].key()) by {
                    assert(str_lt(o[p].key(), o[q].key()));
                }
            }
            true
        },
        None => false,
    }
}

/// `n` is `o` with the derive `d` added to the struct, enum or union named
/// `name`, looked for in that order; `o` itself when there is none.
pub open spec fn derive_added(o: ModContext, n: ModContext, name: Seq<char>, d: String) -> bool {
    if keys_of(o.structs@).contains(name) {
        marked(o.structs@, n.structs@, name, d) && n == (ModContext { structs: n.structs, ..o })
    } else if keys_of(o.enums@).contains(name) {
        marked(o.enums@, n.enums@, name, d) && n == (ModContext { enums: n.enums, ..o })
    } else if keys_of(o.unions@).contains(name) {
        marked(o.unions@, n.unions@, name, d) && n == (ModContext { unions: n.unions, ..o })
    } else {
        n == o
    }
}

impl TraitItem {
    /// Members are kept in key order.
    pub open spec fn wf(&self) -> bool {
        &&& sorted_by_key(self.types@)
        &&& sorted_by_key(self.consts@)
        &&& sorted_by_key(self.fns@)
    }
}

impl ImplItem {
    /// Members are kept in key order.
    pub open spec fn wf(&self) -> bool {
        &&& sorted_by_key(self.types@)
        &&& sorted_by_key(self.consts@)
        &&& sorted_by_key(self.fns@)
    }
}

/// The declarations of one module, each kind in its own keyed collection,
/// and the names that the module as a whole refers to.
pub struct ModContext {
    pub name: String,
    pub extern_crates: Vec<ExternCrateItem>,
    pub uses: Vec<UseItem>,
    pub statics: Vec<StaticItem>,
    pub consts: Vec<ConstItem>,
    pub fns: Vec<FnItem>,
    pub macros: Vec<MacroItem>,
    pub ty_aliases: Vec<TyAliasItem>,
    pub opaque_tys: Vec<OpaqueTyItem>,
    pub enums: Vec<EnumItem>,
    pub structs: Vec<StructItem>,
    pub unions: Vec<UnionItem>,
    pub traits: Vec<TraitItem>,
    pub trait_aliases: Vec<TraitAliasItem>,
    pub impls: Vec<ImplItem>,
    pub applications: Vec<String>,
}

impl ModContext {
    /// Every collection is in key order, as are the derive lists and the
    /// members of traits and impl blocks.
    pub open spec fn wf(&self) -> bool {
        &&& sorted_by_key(self.extern_crates@)
        &&& sorted_by_key(self.uses@)
        &&& sorted_by_key(self.statics@)
        &&& sorted_by_key(self.consts@)
        &&& sorted_by_key(self.fns@)
        &&& sorted_by_key(self.macros@)
        &&& sorted_by_key(self.ty_aliases@)
        &&& sorted_by_key(self.opaque_tys@)
        &&& sorted_by_key(self.enums@)
        &&& sorted_by_key(self.structs@)
        &&& sorted_by_key(self.unions@)
        &&& sorted_by_key(self.traits@)
        &&& sorted_by_key(self.trait_aliases@)
        &&& sorted_by_key(self.impls@)
        &&& marks_sorted(self.enums@)
        &&& marks_sorted(self.structs@)
        &&& marks_sorted(self.unions@)
        &&& forall|i: int| 0 <= i < self.traits@.len() ==> (#[trigger] self.traits@[i]).wf()
        &&& forall|i: int| 0 <= i < self.impls@.len() ==> (#[trigger] self.impls@[i]).wf()
        &&& sorted_by_key(self.applications@)
    }

    /// An empty module named `name`.
    pub fn new(name: &String) -> (r: ModContext)
        ensures
            r.wf(),
            r.name@ == name@,
            r.extern_crates@.len() == 0,
            r.uses@.len() == 0,
            r.statics@.len() == 0,
            r.consts@.len() == 0,
            r.fns@.len() == 0,
            r.macros@.len() == 0,
            r.ty_aliases@.len() == 0,
            r.opaque_tys@.len() == 0,
            r.enums@.len() == 0,
            r.structs@.len() == 0,
            r.unions@.len() == 0,
            r.traits@.len() == 0,
            r.trait_aliases@.len() == 0,
            r.impls@.len() == 0,
            r.applications@.len() == 0,
    {
        ModContext {
            name: name.clone(),
            extern_crates: Vec::new(),
            uses: Vec::new(),
            statics: Vec::new(),
            consts: Vec::new(),
            fns: Vec::new(),
            macros: Vec::new(),
            ty_aliases: Vec::new(),
            opaque_tys: Vec::new(),
            enums: Vec::new(),
            structs: Vec::new(),
            unions: Vec::new(),
            traits: Vec::new(),
            trait_aliases: Vec::new(),
            impls: Vec::new(),
            applications: Vec::new(),
        }
    }

    /// Records an `extern crate`; one whose span is empty is ignored.
    pub fn add_extern_crate(&mut self, source_info: SourceInfo, codes: String)
        requires
            old(self).wf(),
        ensures
            final(self).wf(),
            source_info.spec_is_empty() ==> *final(self) == *old(self),
            !(source_info.spec_is_empty()) ==> inserted_into(old(self).extern_crates@, final(self).extern_crates@, ExternCrateItem { codes: codes, source_info: source_info }),
            !(source_info.spec_is_empty()) ==> *final(self) == (ModContext { extern_crates: final(self).extern_crates, ..*old(self) }),
    {
        if source_info.is_empty() {
            return;
        }
        let item = ExternCrateItem { codes: codes, source_info: source_info };
        insert_keyed(&mut self.extern_crates, item);
    }

    /// Records an import; one whose span is empty, or lies within the span of an import already recorded, is ignored.
    pub fn add_use(&mut self, source_info: SourceInfo, codes: String)
        requires
            old(self).wf(),
        ensures
            final(self).wf(),
            (source_info.spec_is_empty() || exists|j: int| 0 <= j < old(self).uses@.len() && (#[trigger] old(self).uses@[j]).source_info.spans(&source_info)) ==> *final(self) == *old(self),
            !((source_info.spec_is_empty() || exists|j: int| 0 <= j < old(self).uses@.len() && (#[trigger] old(self).uses@[j]).source_info.spans(&source_info))) ==> inserted_into(old(self).uses@, final(self).uses@, UseItem { codes: codes, source_info: source_info }),
            !((source_info.spec_is_empty() || exists|j: int| 0 <= j < old(self).uses@.len() && (#[trigger] old(self).uses@[j]).source_info.spans(&source_info))) ==> *final(self) == (ModContext { uses: final(self).uses, ..*old(self) }),
    {
        if source_info.is_empty() {
            return;
        }
        let mut i: usize = 0;
        while i < self.uses.len()
            invariant
                i <= self.uses.len(),
                forall|j: int| 0 <= j < i ==> !(#[trigger] self.uses@[j]).source_info.spans(&source_info),
                *self == *old(self),
                self.wf(),
            decreases self.uses.len() - i,
        {
            if self.uses[i].source_info.contains(&source_info) {
                return;
            }
            i = i + 1;
        }
        let item = UseItem { codes: codes, source_info: source_info };
        insert_keyed(&mut self.uses, item);
    }

    /// Records a `static`.
    pub fn add_static(&mut self, source_info: SourceInfo, codes: String)
        requires
            old(self).wf(),
        ensures
            final(self).wf(),
            inserted_into(old(self).statics@, final(self).statics@, StaticItem { codes: codes, source_info: source_info }),
            *final(self) == (ModContext { statics: final(self).statics, ..*old(self) }),
    {
        let item = StaticItem { codes: codes, source_info: source_info };
        insert_keyed(&mut self.statics, item);
    }

    /// Records a `const`.
    pub fn add_const(&mut self, source_info: SourceInfo, codes: String)
        requires
            old(self).wf(),
        ensures
            final(self).wf(),
            inserted_into(old(self).consts@, final(self).consts@, ConstItem { codes: codes, source_info: source_info }),
            *final(self) == (ModContext { consts: final(self).consts, ..*old(self) }),
    {
        let item = ConstItem { codes: codes, source_info: source_info };
        insert_keyed(&mut self.consts, item);
    }

    /// Records a macro definition.
    pub fn add_macro(&mut self, source_info: SourceInfo, codes: String)
        requires
            old(self).wf(),
        ensures
            final(self).wf(),
            inserted_into(old(self).macros@, final(self).macros@, MacroItem { codes: codes, source_info: source_info }),
            *final(self) == (ModContext { macros: final(self).macros, ..*old(self) }),
    {
        let item = MacroItem { codes: codes, source_info: source_info };
        insert_keyed(&mut self.macros, item);
    }

    /// Records a type alias.
    pub fn add_ty_alias(&mut self, source_info: SourceInfo, codes: String)
        requires
            old(self).wf(),
        ensures
            final(self).wf(),
            inserted_into(old(self).ty_aliases@, final(self).ty_aliases@, TyAliasItem { codes: codes, source_info: source_info }),
            *final(self) == (ModContext { ty_aliases: final(self).ty_aliases, ..*old(self) }),
    {
        let item = TyAliasItem { codes: codes, source_info: source_info };
        insert_keyed(&mut self.ty_aliases, item);
    }

    /// Records an opaque type alias.
    pub fn add_opaque_ty(&mut self, source_info: SourceInfo, codes: String)
        requires
            old(self).wf(),
        ensures
            final(self).wf(),
            inserted_into(old(self).opaque_tys@, final(self).opaque_tys@, OpaqueTyItem { codes: codes, source_info: source_info }),
            *final(self) == (ModContext { opaque_tys: final(self).opaque_tys, ..*old(self) }),
    {
        let item = OpaqueTyItem { codes: codes, source_info: source_info };
        insert_keyed(&mut self.opaque_tys, item);
    }

    /// Records a trait alias.
    pub fn add_trait_alias(&mut self, source_info: SourceInfo, codes: String)
        requires
            old(self).wf(),
        ensures
            final(self).wf(),
            inserted_into(old(self).trait_aliases@, final(self).trait_aliases@, TraitAliasItem { codes: codes, source_info: source_info }),
            *final(self) == (ModContext { trait_aliases: final(self).trait_aliases, ..*old(self) }),
    {
        let item = TraitAliasItem { codes: codes, source_info: source_info };
        insert_keyed(&mut self.trait_aliases, item);
    }

    /// Records a free function, replacing one of the same name.
    pub fn add_fn(&mut self, fn_item: FnItem)
        requires
            old(self).wf(),
        ensures
            final(self).wf(),
            inserted_into(old(self).fns@, final(self).fns@, fn_item),
            *final(self) == (ModContext { fns: final(self).fns, ..*old(self) }),
    {
        insert_keyed(&mut self.fns, fn_item);
    }

    /// Records an enum, replacing one of the same name.
    pub fn add_enum(&mut self, enum_item: EnumItem)
        requires
            old(self).wf(),
            sorted_by_key(enum_item.derives@),
        ensures
            final(self).wf(),
            inserted_into(old(self).enums@, final(self).enums@, enum_item),
            *final(self) == (ModContext { enums: final(self).enums, ..*old(self) }),
    {
        let ghost o = self.enums@;
        insert_keyed(&mut self.enums, enum_item);
        assert forall|i: int| 0 <= i < self.enums@.len() implies sorted_by_key(#[trigger] self.enums@[i].marks()) by {
            assert(self.enums@.contains(self.enums@[i]));
            if self.enums@[i] != enum_item {
                let j = choose|j: int| 0 <= j < o.len() && o[j] == self.enums@[i];
            }
        }
    }

    /// Records a struct, replacing one of the same name.
    pub fn add_struct(&mut self, struct_item: StructItem)
        requires
            old(self).wf(),
            sorted_by_key(struct_item.derives@),
        ensures
            final(self).wf(),
            inserted_into(old(self).structs@, final(self).structs@, struct_item),
            *final(self) == (ModContext { structs: final(self).structs, ..*old(self) }),
    {
        let ghost o = self.structs@;
        insert_keyed(&mut self.structs, struct_item);
        assert forall|i: int| 0 <= i < self.structs@.len() implies sorted_by_key(#[trigger] self.structs@[i].marks()) by {
            assert(self.structs@.contains(self.structs@[i]));
            if self.structs@[i] != struct_item {
                let j = choose|j: int| 0 <= j < o.len() && o[j] == self.structs@[i];
            }
        }
    }

    /// Records a union, replacing one of the same name.
    pub fn add_union(&mut self, union_item: UnionItem)
        requires
            old(self).wf(),
            sorted_by_key(union_item.derives@),
        ensures
            final(self).wf(),
            inserted_into(old(self).unions@, final(self).unions@, union_item),
            *final(self) == (ModContext { unions: final(self).unions, ..*old(self) }),
    {
        let ghost o = self.unions@;
        insert_keyed(&mut self.unions, union_item);
        assert forall|i: int| 0 <= i < self.unions@.len() implies sorted_by_key(#[trigger] self.unions@[i].marks()) by {
            assert(self.unions@.contains(self.unions@[i]));
            if self.unions@[i] != union_item {
                let j = choose|j: int| 0 <= j < o.len() && o[j] == self.unions@[i];
            }
        }
    }

    /// Records a trait, replacing one of the same name.
    pub fn add_trait(&mut self, trait_item: TraitItem)
        requires
            old(self).wf(),
            trait_item.wf(),
        ensures
            final(self).wf(),
            inserted_into(old(self).traits@, final(self).traits@, trait_item),
            *final(self) == (ModContext { traits: final(self).traits, ..*old(self) }),
    {
        let ghost o = self.traits@;
        insert_keyed(&mut self.traits, trait_item);
        assert forall|i: int| 0 <= i < self.traits@.len() implies (#[trigger] self.traits@[i]).wf() by {
            assert(self.traits@.contains(self.traits@[i]));
            if self.traits@[i] != trait_item {
                let j = choose|j: int| 0 <= j < o.len() && o[j] == self.traits@[i];
            }
        }
    }

    /// Records an impl block, replacing one of the same name.
    pub fn add_impl(&mut self, impl_item: ImplItem)
        requires
            old(self).wf(),
            impl_item.wf(),
        ensures
            final(self).wf(),
            inserted_into(old(self).impls@, final(self).impls@, impl_item),
            *final(self) == (ModContext { impls: final(self).impls, ..*old(self) }),
    {
        let ghost o = self.impls@;
        insert_keyed(&mut self.impls, impl_item);
        assert forall|i: int| 0 <= i < self.impls@.len() implies (#[trigger] self.impls@[i]).wf() by {
            assert(self.impls@.contains(self.impls@[i]));
            if self.impls@[i] != impl_item {
                let j = choose|j: int| 0 <= j < o.len() && o[j] == self.impls@[i];
            }
        }
    }

    /// Adds the derive `derive` to the struct, enum or union named `name`,
    /// looked for in that order; nothing changes when there is none.
    pub fn add_derive(&mut self, name: String, derive: String)
        requires
            old(self).wf(),
        ensures
            final(self).wf(),
            derive_added(*old(self), *final(self), name@, derive),
    {
        if mark_in(&mut self.structs, name.as_str(), &derive) {
            return;
        }
        if mark_in(&mut self.enums, name.as_str(), &derive) {
            return;
        }
        mark_in(&mut self.unions, name.as_str(), &derive);
    }

    /// Writes each struct's, enum's and union's derives into its text, as a
    /// `#[derive(..)]` line above it.
    pub fn derive_to_codes(&mut self)
        requires
            old(self).wf(),
        ensures
            final(self).wf(),
            prefixed(old(self).structs@, final(self).structs@),
            prefixed(old(self).enums@, final(self).enums@),
            prefixed(old(self).unions@, final(self).unions@),
            *final(self) == (ModContext {
                structs: final(self).structs,
                enums: final(self).enums,
                unions: final(self).unions,
                ..*old(self)
            }),
    {
        prefix_all(&mut self.structs);
        prefix_all(&mut self.enums);
        prefix_all(&mut self.unions);
    }

    /// Adds one name that the module refers to.
    pub fn add_application(&mut self, application: String)
        requires
            old(self).wf(),
        ensures
            final(self).wf(),
            inserted_into(old(self).applications@, final(self).applications@, application),
            *final(self) == (ModContext { applications: final(self).applications, ..*old(self) }),
    {
        insert_keyed(&mut self.applications, application);
    }

    /// Adds every name of `ty_strings` to the names that the module refers to.
    pub fn extend_application(&mut self, ty_strings: Vec<String>)
        requires
            old(self).wf(),
        ensures
            final(self).wf(),
            sorted_by_key(final(self).applications@),
            keys_of(final(self).applications@) == keys_of(old(self).applications@) + keys_of(ty_strings@),
            *final(self) == (ModContext { applications: final(self).applications, ..*old(self) }),
    {
        let ghost o = self.applications@;
        let mut i: usize = 0;
        while i < ty_strings.len()
            invariant
                i <= ty_strings.len(),
                sorted_by_key(self.applications@),
                keys_of(self.applications@) == keys_of(o) + keys_of(ty_strings@.take(i as int)),
                *self == (ModContext { applications: self.applications, ..*old(self) }),
            decreases ty_strings.len() - i,
        {
            let s = ty_strings[i].clone();
            insert_keyed(&mut self.applications, s);
            proof {
                let t0 = ty_strings@.take(i as int);
                let t1 = ty_strings@.take(i + 1);
                assert(keys_of(t1) =~= keys_of(t0).insert(s@)) by {
                    assert forall|k: Seq<char>| keys_of(t1).contains(k) implies keys_of(t0).insert(s@).contains(k) by {
                        let m = choose|m: int| 0 <= m < t1.len() && #[trigger] t1[m].key() == k;
                        if m < t0.len() {
                            assert(t0[m].key() == k);
                        }
                    }
                    assert forall|k: Seq<char>| keys_of(t0).insert(s@).contains(k) implies keys_of(t1).contains(k) by {
                        if k == s@ {
                            assert(t1[i as int].key() == k);
                        } else {
                            let m = choose|m: int| 0 <= m < t0.len() && #[trigger] t0[m].key() == k;
                            assert(t1[m].key() == k);
                        }
                    }
                }
                assert(keys_of(self.applications@) =~= keys_of(o) + keys_of(t1));
            }
            i = i + 1;
        }
        assert(ty_strings@.take(i as int) =~= ty_strings@);
    }
}


fn all_marks_sorted<T: Annotated>(v: &Vec<T>) -> (r: bool)
    ensures
        r == marks_sorted(v@),
{
    let mut j: usize = 0;
    while j < v.len()
        invariant
            j <= v.len(),
            forall|i: int| 0 <= i < j ==> sorted_by_key(#[trigger] v@[i].marks()),
        decreases v.len() - j,
    {
        if !is_sorted(v[j].mark_list()) {
            return false;
        }
        j = j + 1;
    }
    true
}

fn members_sorted_traits(v: &Vec<TraitItem>) -> (r: bool)
    ensures
        r == forall|i: int| 0 <= i < v@.len() ==> (#[trigger] v@[i]).wf(),
{
    let mut j: usize = 0;
    while j < v.len()
        invariant
            j <= v.len(),
            forall|i: int| 0 <= i < j ==> (#[trigger] v@[i]).wf(),
        decreases v.len() - j,
    {
        if !(is_sorted(&v[j].types) && is_sorted(&v[j].consts) && is_sorted(&v[j].fns)) {
            return false;
        }
        j = j + 1;
    }
    true
}

fn members_sorted_impls(v: &Vec<ImplItem>) -> (r: bool)
    ensures
        r == forall|i: int| 0 <= i < v@.len() ==> (#[trigger] v@[i]).wf(),
{
    let mut j: usize = 0;
    while j < v.len()
        invariant
            j <= v.len(),
            forall|i: int| 0 <= i < j ==> (#[trigger] v@[i]).wf(),
        decreases v.len() - j,
    {
        if !(is_sorted(&v[j].types) && is_sorted(&v[j].consts) && is_sorted(&v[j].fns)) {
            return false;
        }
        j = j + 1;
    }
    true
}

impl ModContext {
    /// Whether the module is well formed.
    pub fn is_wf(&self) -> (r: bool)
        ensures
            r == self.wf(),
    {
        is_sorted(&self.extern_crates) && is_sorted(&self.uses) && is_sorted(&self.statics) && is_sorted(&self.consts) && is_sorted(&self.fns) && is_sorted(&self.macros) && is_sorted(&self.ty_aliases) && is_sorted(&self.opaque_tys) && is_sorted(&self.enums) && is_sorted(&self.structs) && is_sorted(&self.unions) && is_sorted(&self.traits) && is_sorted(&self.trait_aliases) && is_sorted(&self.impls)
            && all_marks_sorted(&self.structs) && all_marks_sorted(&self.enums)
            && all_marks_sorted(&self.unions) && members_sorted_traits(&self.traits)
            && members_sorted_impls(&self.impls) && is_sorted(&self.applications)
    }
}

/// Whether every module is well formed and no two modules share a name.
pub fn check_modules(mods: &Vec<ModContext>) -> (r: bool)
    ensures
        r == modules_ok(mods@),
{
    let mut j: usize = 0;
    while j < mods.len()
        invariant
            j <= mods.len(),
            forall|i: int| 0 <= i < j ==> (#[trigger] mods@[i]).wf(),
            forall|p: int, q: int| 0 <= p < q < j ==> (#[trigger] mods@[p]).name@ != (#[trigger] mods@[q]).name@,
        decreases mods.len() - j,
    {
        if !mods[j].is_wf() {
            return false;
        }
        let mut k: usize = 0;
        while k < j
            invariant
                k <= j < mods.len(),
                forall|p: int| 0 <= p < k ==> (#[trigger] mods@[p]).name@ != mods@[j as int].name@,
            decreases j - k,
        {
            if same_text(mods[k].name.as_str(), mods[j].name.as_str()) {
                return false;
            }
            k = k + 1;
        }
        j = j + 1;
    }
    true
}

} // verus!
