use vstd::prelude::*;
use crate::keyed::Keyed;
use crate::mod_context::{Coded, ModContext, ImplItem, InnerFnItem, TraitItem};
use crate::syntax::{item_parses, parses_as_item};
use crate::text::same_text;

verus! {

/// Some declaration of `s` is named `n` and its text parses.
pub open spec fn named_parsing<T: Keyed + Coded>(s: Seq<T>, n: Seq<char>) -> bool {
    exists|j: int| 0 <= j < s.len() && (#[trigger] s[j]).key() == n && item_parses(s[j].text())
}

/// Some method of `s` is named `n`.
pub open spec fn member_named(s: Seq<InnerFnItem>, n: Seq<char>) -> bool {
    exists|j: int| 0 <= j < s.len() && (#[trigger] s[j]).name@ == n
}

/// A trait that parses is found under its own name and its methods' names.
pub open spec fn trait_found(t: TraitItem, n: Seq<char>) -> bool {
    item_parses(t.codes@) && (t.name@ == n || member_named(t.fns@, n))
}

/// An impl block that parses is found under its methods' names and, in the
/// pass over reached names, under the name of its type or of its trait.
pub open spec fn impl_found(it: ImplItem, n: Seq<char>, direct: bool) -> bool {
    item_parses(it.codes@) && (member_named(it.fns@, n) || (!direct && (it.struct_name@ == n
        || (it.trait_name is Some && it.trait_name->0@ == n))))
}

/// Looking up `n` in the pass over direct names (`direct`) or over reached
/// names selects a declaration of module `m`.
pub open spec fn touches(m: ModContext, n: Seq<char>, direct: bool) -> bool {
    ||| named_parsing(m.fns@, n)
    ||| named_parsing(m.enums@, n)
    ||| named_parsing(m.structs@, n)
    ||| named_parsing(m.unions@, n)
    ||| exists|j: int| 0 <= j < m.traits@.len() && trait_found(#[trigger] m.traits@[j], n)
    ||| exists|j: int| 0 <= j < m.impls@.len() && impl_found(#[trigger] m.impls@[j], n, direct)
}

/// The modules among the first `k` that `n` touches and `acc` does not hold
/// yet are added to `acc`, in module order.
pub open spec fn visit_modules(mods: Seq<ModContext>, n: Seq<char>, direct: bool, k: int, acc: Seq<int>) -> Seq<int>
    decreases k,
{
    if k <= 0 {
        acc
    } else {
        let a = visit_modules(mods, n, direct, k - 1, acc);
        if touches(mods[k - 1], n, direct) && !a.contains(k - 1) {
            a.push(k - 1)
        } else {
            a
        }
    }
}

/// The names of `ns` looked up one after the other, each adding the modules
/// it touches first.
pub open spec fn visit_names(mods: Seq<ModContext>, ns: Seq<Seq<char>>, direct: bool, acc: Seq<int>) -> Seq<int>
    decreases ns.len(),
{
    if ns.len() == 0 {
        acc
    } else {
        visit_modules(mods, ns.last(), direct, mods.len() as int, visit_names(mods, ns.drop_last(), direct, acc))
    }
}

/// The modules in the order in which they are first touched: by the direct
/// names in order, then by the reached names in order.
pub open spec fn touch_order(mods: Seq<ModContext>, d: Seq<Seq<char>>, i: Seq<Seq<char>>) -> Seq<int> {
    visit_names(mods, i, false, visit_names(mods, d, true, Seq::empty()))
}

fn named_parsing_in<T: Keyed + Coded>(s: &Vec<T>, n: &str) -> (r: bool)
    ensures
        r == named_parsing(s@, n@),
{
    let mut j: usize = 0;
    while j < s.len()
        invariant
            j <= s.len(),
            forall|q: int| 0 <= q < j ==> !((#[trigger] s@[q]).key() == n@ && item_parses(s@[q].text())),
        decreases s.len() - j,
    {
        if same_text(s[j].key_str(), n) && parses_as_item(s[j].text_str()) {
            return true;
        }
        j = j + 1;
    }
    false
}

fn member_named_in(s: &Vec<InnerFnItem>, n: &str) -> (r: bool)
    ensures
        r == member_named(s@, n@),
{
    let mut j: usize = 0;
    while j < s.len()
        invariant
            j <= s.len(),
            forall|q: int| 0 <= q < j ==> (#[trigger] s@[q]).name@ != n@,
        decreases s.len() - j,
    {
        if same_text(s[j].name.as_str(), n) {
            return true;
        }
        j = j + 1;
    }
    false
}

fn impl_found_by(it: &ImplItem, n: &str, direct: bool) -> (r: bool)
    ensures
        r == impl_found(*it, n@, direct),
{
    if !parses_as_item(it.codes.as_str()) {
        return false;
    }
    if member_named_in(&it.fns, n) {
        return true;
    }
    if direct {
        return false;
    }
    if same_text(it.struct_name.as_str(), n) {
        return true;
    }
    match &it.trait_name {
        Some(t) => same_text(t.as_str(), n),
        None => false,
    }
}

/// Whether looking up `n` selects a declaration of module `m`.
pub fn touches_module(m: &ModContext, n: &str, direct: bool) -> (r: bool)
    ensures
        r == touches(*m, n@, direct),
{
    if named_parsing_in(&m.fns, n) || named_parsing_in(&m.enums, n) || named_parsing_in(&m.structs, n)
        || named_parsing_in(&m.unions, n) {
        return true;
    }
    let mut j: usize = 0;
    while j < m.traits.len()
        invariant
            j <= m.traits.len(),
            forall|q: int| 0 <= q < j ==> !trait_found(#[trigger] m.traits@[q], n@),
        decreases m.traits.len() - j,
    {
        let t = &m.traits[j];
        if parses_as_item(t.codes.as_str()) && (same_text(t.name.as_str(), n) || member_named_in(&t.fns, n)) {
            return true;
        }
        j = j + 1;
    }
    let mut j: usize = 0;
    while j < m.impls.len()
        invariant
            j <= m.impls.len(),
            forall|q: int| 0 <= q < j ==> !impl_found(#[trigger] m.impls@[q], n@, direct),
            forall|q: int| 0 <= q < m.traits@.len() ==> !trait_found(#[trigger] m.traits@[q], n@),
            !named_parsing(m.fns@, n@),
            !named_parsing(m.enums@, n@),
            !named_parsing(m.structs@, n@),
            !named_parsing(m.unions@, n@),
        decreases m.impls.len() - j,
    {
        if impl_found_by(&m.impls[j], n, direct) {
            return true;
        }
        j = j + 1;
    }
    false
}

pub open spec fn index_views(s: Seq<usize>) -> Seq<int> {
    s.map_values(|k: usize| k as int)
}

fn holds_index(v: &Vec<usize>, k: usize) -> (r: bool)
    ensures
        r == index_views(v@).contains(k as int),
{
    let mut j: usize = 0;
    while j < v.len()
        invariant
            j <= v.len(),
            forall|q: int| 0 <= q < j ==> v@[q] != k,
        decreases v.len() - j,
    {
        if v[j] == k {
            assert(index_views(v@)[j as int] == k as int);
            return true;
        }
        j = j + 1;
    }
    false
}

/// Adds, in module order, the modules that looking up `n` touches first.
fn visit_name(mods: &Vec<ModContext>, n: &str, direct: bool, order: &mut Vec<usize>)
    requires
        forall|q: int| 0 <= q < old(order)@.len() ==> old(order)@[q] < mods@.len(),
    ensures
        index_views(final(order)@) == visit_modules(mods@, n@, direct, mods@.len() as int, index_views(old(order)@)),
        forall|q: int| 0 <= q < final(order)@.len() ==> final(order)@[q] < mods@.len(),
{
    let mut k: usize = 0;
    while k < mods.len()
        invariant
            k <= mods.len(),
            forall|q: int| 0 <= q < order@.len() ==> order@[q] < mods@.len(),
            index_views(order@) == visit_modules(mods@, n@, direct, k as int, index_views(old(order)@)),
        decreases mods.len() - k,
    {
        if touches_module(&mods[k], n, direct) && !holds_index(order, k) {
            let ghost before = order@;
            order.push(k);
            assert(index_views(order@) =~= index_views(before).push(k as int));
        }
        k = k + 1;
    }
}

/// Looks up the names of `ns` in order, adding the modules each touches first.
pub fn visit_all(mods: &Vec<ModContext>, ns: &Vec<String>, direct: bool, order: &mut Vec<usize>)
    requires
        forall|q: int| 0 <= q < old(order)@.len() ==> old(order)@[q] < mods@.len(),
    ensures
        forall|q: int| 0 <= q < final(order)@.len() ==> final(order)@[q] < mods@.len(),
        index_views(final(order)@) == visit_names(mods@, ns@.map_values(|s: String| s@), direct, index_views(old(order)@)),
{
    let ghost names = ns@.map_values(|s: String| s@);
    let mut j: usize = 0;
    while j < ns.len()
        invariant
            j <= ns.len(),
            names == ns@.map_values(|s: String| s@),
            forall|q: int| 0 <= q < order@.len() ==> order@[q] < mods@.len(),
            index_views(order@) == visit_names(mods@, names.take(j as int), direct, index_views(old(order)@)),
        decreases ns.len() - j,
    {
        proof {
            assert(names.take(j + 1).drop_last() =~= names.take(j as int));
            assert(names.take(j + 1).last() == ns@[j as int]@);
        }
        visit_name(mods, ns[j].as_str(), direct, order);
        j = j + 1;
    }
    assert(names.take(j as int) =~= names);
}

} // verus!
