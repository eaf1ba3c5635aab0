use vstd::prelude::*;
use crate::assembly::{
    ParseKind, parses, rows, file_model, impl_model, impl_named, impl_member_rows, keeps_body,
};
use crate::closure::{closure_of, is_path, refers};
use crate::keyed::{Keyed, keys_of, name_set, sorted_by_key, inserted_into, lemma_sorted_unique};
use crate::mod_context::{Annotated, Coded, ModContext, ImplItem, InnerFnItem, derive_added};
use crate::parse_context::context_sections;
use crate::syntax::{item_parses, impl_member_parses, return_type_of, stub_of};
use crate::text::str_lt;

verus! {

proof fn lemma_rows_contains<T: Keyed + Coded>(s: Seq<T>, d: Set<Seq<char>>, i: Set<Seq<char>>, stubbable: bool, k: int)
    requires
        0 <= k < s.len(),
        i.contains(s[k].key()),
        parses(ParseKind::Item, s[k].text()),
        stubbable && !d.contains(s[k].key()) ==> stub_of(s[k].text()) is Some,
    ensures
        rows(s, d, i, stubbable).contains((s[k].key(), if stubbable && !d.contains(s[k].key()) {
            stub_of(s[k].text())->0
        } else {
            s[k].text()
        })),
    decreases s.len(),
{
    let row = (s[k].key(), if stubbable && !d.contains(s[k].key()) { stub_of(s[k].text())->0 } else { s[k].text() });
    let front = rows(s.drop_last(), d, i, stubbable);
    if k == s.len() - 1 {
        let r = rows(s, d, i, stubbable);
        assert(r[front.len() as int] == row);
    } else {
        lemma_rows_contains(s.drop_last(), d, i, stubbable, k);
        let j = choose|j: int| 0 <= j < front.len() && front[j] == row;
        assert(rows(s, d, i, stubbable)[j] == row);
    }
}

proof fn lemma_impl_members_contains(
    s: Seq<InnerFnItem>,
    whole: bool,
    struct_name: Seq<char>,
    d: Set<Seq<char>>,
    i: Set<Seq<char>>,
    k: int,
)
    requires
        0 <= k < s.len(),
        whole || i.contains(s[k].name@),
        impl_member_parses(s[k].codes@),
        !(d.contains(s[k].name@) || keeps_body(return_type_of(s[k].codes@), struct_name)) ==> stub_of(s[k].codes@) is Some,
    ensures
        impl_member_rows(s, whole, struct_name, d, i).contains((s[k].name@,
            if d.contains(s[k].name@) || keeps_body(return_type_of(s[k].codes@), struct_name) {
                s[k].codes@
            } else {
                stub_of(s[k].codes@)->0
            })),
    decreases s.len(),
{
    let x = s[k];
    let row = (x.name@, if d.contains(x.name@) || keeps_body(return_type_of(x.codes@), struct_name) {
        x.codes@
    } else {
        stub_of(x.codes@)->0
    });
    let front = impl_member_rows(s.drop_last(), whole, struct_name, d, i);
    if k == s.len() - 1 {
        assert(impl_member_rows(s, whole, struct_name, d, i)[front.len() as int] == row);
    } else {
        lemma_impl_members_contains(s.drop_last(), whole, struct_name, d, i, k);
        let j = choose|j: int| 0 <= j < front.len() && front[j] == row;
        assert(impl_member_rows(s, whole, struct_name, d, i)[j] == row);
    }
}

/// Every seed is in the closure of the seeds.
pub proof fn lemma_seeds_in_closure(mods: Seq<ModContext>, seeds: Set<Seq<char>>, x: Seq<char>)
    requires
        seeds.contains(x),
    ensures
        closure_of(mods, seeds).contains(x),
{
    let p = seq![x];
    assert(is_path(mods, p) && seeds.contains(p[0]) && p.last() == x);
}

/// The context of an entry point depends on its seed names only, not on the
/// order in which they are listed: the same modules and the same entry point
/// always give the same text.
pub proof fn law_context_deterministic(mods: Seq<ModContext>, a: Seq<String>, b: Seq<String>)
    requires
        name_set(a) == name_set(b),
    ensures
        context_sections(mods, name_set(a)) == context_sections(mods, name_set(b)),
{
}

/// A function named among the seeds is rendered in full, even though it is
/// also reached from them.
pub proof fn law_direct_rendered_in_full(mods: Seq<ModContext>, seeds: Set<Seq<char>>, mi: int, k: int)
    requires
        0 <= mi < mods.len(),
        0 <= k < mods[mi].fns@.len(),
        seeds.contains(mods[mi].fns@[k].name@),
        item_parses(mods[mi].fns@[k].codes@),
    ensures
        file_model(mods[mi], seeds, closure_of(mods, seeds)).fns.contains(
            (mods[mi].fns@[k].name@, mods[mi].fns@[k].codes@),
        ),
{
    let f = mods[mi].fns@[k];
    lemma_seeds_in_closure(mods, seeds, f.name@);
    lemma_rows_contains(mods[mi].fns@, seeds, closure_of(mods, seeds), true, k);
}

/// A method named among the seeds is rendered in full, whatever its return type.
pub proof fn law_direct_method_in_full(mods: Seq<ModContext>, seeds: Set<Seq<char>>, mi: int, j: int, k: int)
    requires
        0 <= mi < mods.len(),
        0 <= j < mods[mi].impls@.len(),
        0 <= k < mods[mi].impls@[j].fns@.len(),
        seeds.contains(mods[mi].impls@[j].fns@[k].name@),
        impl_member_parses(mods[mi].impls@[j].fns@[k].codes@),
    ensures
        impl_model(mods[mi].impls@[j], seeds, closure_of(mods, seeds)).fns.contains(
            (mods[mi].impls@[j].fns@[k].name@, mods[mi].impls@[j].fns@[k].codes@),
        ),
{
    let it = mods[mi].impls@[j];
    let i = closure_of(mods, seeds);
    lemma_seeds_in_closure(mods, seeds, it.fns@[k].name@);
    lemma_impl_members_contains(it.fns@, impl_named(it, i), it.struct_name@, seeds, i, k);
}

/// A function that is reached but not named among the seeds is rendered as
/// its stub: the function as syn reads it, with the statements of its body
/// removed.
pub proof fn law_indirect_fn_stubbed(mods: Seq<ModContext>, seeds: Set<Seq<char>>, mi: int, k: int)
    requires
        0 <= mi < mods.len(),
        0 <= k < mods[mi].fns@.len(),
        closure_of(mods, seeds).contains(mods[mi].fns@[k].name@),
        !seeds.contains(mods[mi].fns@[k].name@),
        item_parses(mods[mi].fns@[k].codes@),
        stub_of(mods[mi].fns@[k].codes@) is Some,
    ensures
        file_model(mods[mi], seeds, closure_of(mods, seeds)).fns.contains(
            (mods[mi].fns@[k].name@, stub_of(mods[mi].fns@[k].codes@)->0),
        ),
{
    lemma_rows_contains(mods[mi].fns@, seeds, closure_of(mods, seeds), true, k);
}

/// A method of an impl block that is reached as a whole keeps its body when
/// its return type mentions the implementing type (or `Self`), even when the
/// method itself is not named directly.
pub proof fn law_constructor_kept(it: ImplItem, d: Set<Seq<char>>, i: Set<Seq<char>>, k: int)
    requires
        impl_named(it, i),
        0 <= k < it.fns@.len(),
        impl_member_parses(it.fns@[k].codes@),
        keeps_body(return_type_of(it.fns@[k].codes@), it.struct_name@),
    ensures
        impl_model(it, d, i).fns.contains((it.fns@[k].name@, it.fns@[k].codes@)),
{
    lemma_impl_members_contains(it.fns@, impl_named(it, i), it.struct_name@, d, i, k);
}

proof fn lemma_insert_twice<T: Keyed>(a: Seq<T>, b: Seq<T>, c: Seq<T>, x: T)
    requires
        inserted_into(a, b, x),
        inserted_into(b, c, x),
    ensures
        c == b,
{
    assert forall|y: T| c.contains(y) <==> b.contains(y) by {
        if b.contains(y) && y.key() == x.key() {
            assert(a.contains(y) ==> y.key() != x.key() || y == x);
        }
        assert(b.contains(x));
    }
    lemma_sorted_unique(c, b);
}

/// Adding the same derive twice to the same declaration leaves the derive
/// lists as adding it once: the derive is listed once, so the one
/// `#[derive(..)]` line written from the list names it once.
pub proof fn law_derive_merge_idempotent(m0: ModContext, m1: ModContext, m2: ModContext, name: Seq<char>, d: String)
    requires
        derive_added(m0, m1, name, d),
        derive_added(m1, m2, name, d),
    ensures
        m2.structs@.len() == m1.structs@.len(),
        m2.enums@.len() == m1.enums@.len(),
        m2.unions@.len() == m1.unions@.len(),
        forall|q: int| 0 <= q < m1.structs@.len() ==> (#[trigger] m2.structs@[q]).marks() == m1.structs@[q].marks()
            && m2.structs@[q].text() == m1.structs@[q].text(),
        forall|q: int| 0 <= q < m1.enums@.len() ==> (#[trigger] m2.enums@[q]).marks() == m1.enums@[q].marks()
            && m2.enums@[q].text() == m1.enums@[q].text(),
        forall|q: int| 0 <= q < m1.unions@.len() ==> (#[trigger] m2.unions@[q]).marks() == m1.unions@[q].marks()
            && m2.unions@[q].text() == m1.unions@[q].text(),
{
    if keys_of(m0.structs@).contains(name) {
        let j = choose|j: int| 0 <= j < m0.structs@.len() && #[trigger] m0.structs@[j].key() == name;
        assert(m1.structs@[j].key() == name);
        assert(keys_of(m1.structs@).contains(name));
        assert forall|q: int| 0 <= q < m1.structs@.len() implies (#[trigger] m2.structs@[q]).marks() == m1.structs@[q].marks() by {
            if m1.structs@[q].key() == name {
                lemma_insert_twice(m0.structs@[q].marks(), m1.structs@[q].marks(), m2.structs@[q].marks(), d);
            }
        }
    } else if keys_of(m0.enums@).contains(name) {
        assert(m1.structs == m0.structs);
        let j = choose|j: int| 0 <= j < m0.enums@.len() && #[trigger] m0.enums@[j].key() == name;
        assert(m1.enums@[j].key() == name);
        assert(keys_of(m1.enums@).contains(name));
        assert forall|q: int| 0 <= q < m1.enums@.len() implies (#[trigger] m2.enums@[q]).marks() == m1.enums@[q].marks() by {
            if m1.enums@[q].key() == name {
                lemma_insert_twice(m0.enums@[q].marks(), m1.enums@[q].marks(), m2.enums@[q].marks(), d);
            }
        }
    } else if keys_of(m0.unions@).contains(name) {
        assert(m1.structs == m0.structs);
        assert(m1.enums == m0.enums);
        let j = choose|j: int| 0 <= j < m0.unions@.len() && #[trigger] m0.unions@[j].key() == name;
        assert(m1.unions@[j].key() == name);
        assert(keys_of(m1.unions@).contains(name));
        assert forall|q: int| 0 <= q < m1.unions@.len() implies (#[trigger] m2.unions@[q]).marks() == m1.unions@[q].marks() by {
            if m1.unions@[q].key() == name {
                lemma_insert_twice(m0.unions@[q].marks(), m1.unions@[q].marks(), m2.unions@[q].marks(), d);
            }
        }
    }
}


/// Closing the closure again adds nothing: every name reachable from a
/// reachable name is itself reachable.
pub proof fn law_closure_idempotent(mods: Seq<ModContext>, seeds: Set<Seq<char>>)
    ensures
        closure_of(mods, closure_of(mods, seeds)) == closure_of(mods, seeds),
{
    let c = closure_of(mods, seeds);
    assert forall|x: Seq<char>| closure_of(mods, c).contains(x) implies c.contains(x) by {
        let p = choose|p: Seq<Seq<char>>| is_path(mods, p) && c.contains(p[0]) && p.last() == x;
        let q = choose|q: Seq<Seq<char>>| is_path(mods, q) && seeds.contains(q[0]) && q.last() == p[0];
        let w = q + p.skip(1);
        assert forall|k: int| 0 <= k < w.len() - 1 implies refers(mods, #[trigger] w[k], w[k + 1]) by {
            if k < q.len() - 1 {
                assert(refers(mods, q[k], q[k + 1]));
            } else if k == q.len() - 1 {
                assert(w[k] == p[0]);
                assert(w[k + 1] == p[1]);
                assert(refers(mods, p[0], p[1]));
            } else {
                let t = k - q.len() + 1;
                assert(w[k] == p[t]);
                assert(w[k + 1] == p[t + 1]);
                assert(refers(mods, p[t], p[t + 1]));
            }
        }
        if p.len() == 1 {
            assert(w =~= q);
        } else {
            assert(w.last() == p.last());
        }
        assert(is_path(mods, w) && seeds.contains(w[0]) && w.last() == x);
    }
    assert forall|x: Seq<char>| c.contains(x) implies closure_of(mods, c).contains(x) by {
        lemma_seeds_in_closure(mods, c, x);
    }
    assert(closure_of(mods, c) =~= c);
}

proof fn lemma_rows_from<T: Keyed + Coded>(s: Seq<T>, d: Set<Seq<char>>, i: Set<Seq<char>>, stubbable: bool, q: int)
    requires
        0 <= q < rows(s, d, i, stubbable).len(),
    ensures
        exists|j: int| 0 <= j < s.len() && (#[trigger] s[j]).key() == rows(s, d, i, stubbable)[q].0,
    decreases s.len(),
{
    let front = rows(s.drop_last(), d, i, stubbable);
    if q < front.len() {
        lemma_rows_from(s.drop_last(), d, i, stubbable, q);
        let j = choose|j: int| 0 <= j < s.drop_last().len() && (#[trigger] s.drop_last()[j]).key() == front[q].0;
        assert(s[j] == s.drop_last()[j]);
    } else {
        assert(s[s.len() - 1].key() == rows(s, d, i, stubbable)[q].0);
    }
}

/// Within a kind, rendered declarations come in name order, each name once,
/// when the module keeps that kind in name order.
pub proof fn law_rows_in_name_order<T: Keyed + Coded>(s: Seq<T>, d: Set<Seq<char>>, i: Set<Seq<char>>, stubbable: bool)
    requires
        sorted_by_key(s),
    ensures
        forall|a: int, b: int| 0 <= a < b < rows(s, d, i, stubbable).len() ==>
            str_lt(#[trigger] rows(s, d, i, stubbable)[a].0, #[trigger] rows(s, d, i, stubbable)[b].0),
    decreases s.len(),
{
    if s.len() > 0 {
        let t = s.drop_last();
        assert(sorted_by_key(t)) by {
            assert forall|a: int, b: int| 0 <= a < b < t.len() implies str_lt(#[trigger] t[a].key(), #[trigger] t[b].key()) by {
                assert(t[a] == s[a] && t[b] == s[b]);
            }
        }
        law_rows_in_name_order(t, d, i, stubbable);
        let front = rows(t, d, i, stubbable);
        let r = rows(s, d, i, stubbable);
        assert forall|a: int, b: int| 0 <= a < b < r.len() implies str_lt(#[trigger] r[a].0, #[trigger] r[b].0) by {
            if b < front.len() {
                assert(r[a] == front[a] && r[b] == front[b]);
            } else {
                assert(r[a] == front[a]);
                lemma_rows_from(t, d, i, stubbable, a);
                let j = choose|j: int| 0 <= j < t.len() && (#[trigger] t[j]).key() == front[a].0;
                assert(t[j] == s[j]);
                assert(str_lt(s[j].key(), s[s.len() - 1].key()));
            }
        }
    }
}

} // verus!
