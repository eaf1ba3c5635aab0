use vstd::prelude::*;
use crate::keyed::{Keyed, keys_of, name_set, sorted_by_key, push_all, find_key, insert_keyed, lemma_keys_finite};
use crate::mod_context::{ModContext, FnItem, EnumItem, StructItem, UnionItem, TraitItem, InnerFnItem, ImplItem};
use crate::text::same_text;

verus! {

/// A declaration that carries the set of names it refers to.
pub trait Referring: Keyed {
    spec fn refs(&self) -> Seq<String>;

    fn refs_vec(&self) -> (r: &Vec<String>)
        ensures
            r@ == self.refs(),
    ;
}

impl Referring for FnItem {
    open spec fn refs(&self) -> Seq<String> {
        self.applications@
    }

    fn refs_vec(&self) -> (r: &Vec<String>) {
        &self.applications
    }
}

impl Referring for InnerFnItem {
    open spec fn refs(&self) -> Seq<String> {
        self.applications@
    }

    fn refs_vec(&self) -> (r: &Vec<String>) {
        &self.applications
    }
}

impl Referring for EnumItem {
    open spec fn refs(&self) -> Seq<String> {
        self.applications@
    }

    fn refs_vec(&self) -> (r: &Vec<String>) {
        &self.applications
    }
}

impl Referring for StructItem {
    open spec fn refs(&self) -> Seq<String> {
        self.applications@
    }

    fn refs_vec(&self) -> (r: &Vec<String>) {
        &self.applications
    }
}

impl Referring for UnionItem {
    open spec fn refs(&self) -> Seq<String> {
        self.applications@
    }

    fn refs_vec(&self) -> (r: &Vec<String>) {
        &self.applications
    }
}

impl Referring for TraitItem {
    open spec fn refs(&self) -> Seq<String> {
        self.applications@
    }

    fn refs_vec(&self) -> (r: &Vec<String>) {
        &self.applications
    }
}

/// The name filter `f` admits key `k`: `None` admits every key.
pub open spec fn admits(f: Option<Seq<char>>, k: Seq<char>) -> bool {
    f is None || f == Some(k)
}

pub open spec fn opt_view(f: &Option<String>) -> Option<Seq<char>> {
    match f {
        Some(s) => Some(s@),
        None => None,
    }
}

/// Some declaration of `v` admitted by `f` refers to `b`.
pub open spec fn refs_in<T: Referring>(v: Seq<T>, f: Option<Seq<char>>, b: Seq<char>) -> bool {
    exists|j: int| 0 <= j < v.len() && admits(f, (#[trigger] v[j]).key()) && name_set(v[j].refs()).contains(b)
}

/// An impl block is found under the name of its type and under the name of its trait.
pub open spec fn impl_admitted(i: ImplItem, f: Option<Seq<char>>) -> bool {
    admits(f, i.struct_name@) || (i.trait_name is Some && admits(f, i.trait_name->0@))
}

/// Some declaration of module `m` found under a name admitted by `f` refers to `b`.
pub open spec fn module_refers(m: ModContext, f: Option<Seq<char>>, b: Seq<char>) -> bool {
    ||| refs_in(m.fns@, f, b)
    ||| refs_in(m.enums@, f, b)
    ||| refs_in(m.structs@, f, b)
    ||| refs_in(m.unions@, f, b)
    ||| refs_in(m.traits@, f, b)
    ||| trait_members_refer(m.traits@, f, b)
    ||| impls_refer(m.impls@, f, b)
    ||| impl_members_refer(m.impls@, f, b)
}

pub open spec fn trait_members_refer(ts: Seq<TraitItem>, f: Option<Seq<char>>, b: Seq<char>) -> bool {
    exists|j: int| 0 <= j < ts.len() && refs_in((#[trigger] ts[j]).fns@, f, b)
}

pub open spec fn impls_refer(is: Seq<ImplItem>, f: Option<Seq<char>>, b: Seq<char>) -> bool {
    exists|j: int| 0 <= j < is.len() && impl_admitted(#[trigger] is[j], f) && name_set(is[j].applications@).contains(b)
}

pub open spec fn impl_members_refer(is: Seq<ImplItem>, f: Option<Seq<char>>, b: Seq<char>) -> bool {
    exists|j: int| 0 <= j < is.len() && refs_in((#[trigger] is[j]).fns@, f, b)
}

pub open spec fn refers_any(mods: Seq<ModContext>, f: Option<Seq<char>>, b: Seq<char>) -> bool {
    exists|i: int| 0 <= i < mods.len() && module_refers(#[trigger] mods[i], f, b)
}

/// An edge of the reference graph: some declaration found under `a` refers to `b`.
pub open spec fn refers(mods: Seq<ModContext>, a: Seq<char>, b: Seq<char>) -> bool {
    refers_any(mods, Some(a), b)
}

/// A walk along reference edges.
pub open spec fn is_path(mods: Seq<ModContext>, p: Seq<Seq<char>>) -> bool {
    &&& p.len() > 0
    &&& forall|k: int| 0 <= k < p.len() - 1 ==> refers(mods, #[trigger] p[k], p[k + 1])
}

/// `x` is reached from `seeds` by following references, zero or more times.
pub open spec fn reachable(mods: Seq<ModContext>, seeds: Set<Seq<char>>, x: Seq<char>) -> bool {
    exists|p: Seq<Seq<char>>| is_path(mods, p) && seeds.contains(p[0]) && p.last() == x
}

/// Every name reachable from `seeds`, the seeds included.
pub open spec fn closure_of(mods: Seq<ModContext>, seeds: Set<Seq<char>>) -> Set<Seq<char>> {
    Set::new(|x: Seq<char>| reachable(mods, seeds, x))
}

fn filter_admits(f: &Option<String>, k: &str) -> (r: bool)
    ensures
        r == admits(opt_view(f), k@),
{
    match f {
        Some(s) => same_text(s.as_str(), k),
        None => true,
    }
}

/// Appends what the declarations of `v` admitted by `f` refer to.
fn collect_in<T: Referring>(v: &Vec<T>, f: &Option<String>, out: &mut Vec<String>)
    ensures
        forall|b: Seq<char>| #[trigger] name_set(final(out)@).contains(b) <==> (name_set(old(out)@).contains(b) || refs_in(v@, opt_view(f), b)),
{
    let mut i: usize = 0;
    while i < v.len()
        invariant
            i <= v.len(),
            forall|b: Seq<char>| #[trigger] name_set(out@).contains(b) <==> (name_set(old(out)@).contains(b) || refs_in(v@.take(i as int), opt_view(f), b)),
        decreases v.len() - i,
    {
        let ghost before = out@;
        if filter_admits(f, v[i].key_str()) {
            push_all(out, v[i].refs_vec());
        }
        proof {
            assert forall|b: Seq<char>| #[trigger] name_set(out@).contains(b) <==> (name_set(old(out)@).contains(b) || refs_in(v@.take(i + 1), opt_view(f), b)) by {
                let t0 = v@.take(i as int);
                let t1 = v@.take(i + 1);
                if refs_in(t0, opt_view(f), b) {
                    let j = choose|j: int| 0 <= j < t0.len() && admits(opt_view(f), (#[trigger] t0[j]).key()) && name_set(t0[j].refs()).contains(b);
                    assert(t1[j] == t0[j]);
                }
                if refs_in(t1, opt_view(f), b) {
                    let j = choose|j: int| 0 <= j < t1.len() && admits(opt_view(f), (#[trigger] t1[j]).key()) && name_set(t1[j].refs()).contains(b);
                    if j < i {
                        assert(t0[j] == t1[j]);
                    }
                }
                if admits(opt_view(f), v@[i as int].key()) && name_set(v@[i as int].refs()).contains(b) {
                    assert(t1[i as int] == v@[i as int]);
                }
            }
        }
        i = i + 1;
    }
    assert(v@.take(i as int) =~= v@);
}


fn collect_trait_members(ts: &Vec<TraitItem>, f: &Option<String>, out: &mut Vec<String>)
    ensures
        forall|b: Seq<char>| #[trigger] name_set(final(out)@).contains(b) <==> (name_set(old(out)@).contains(b) || trait_members_refer(ts@, opt_view(f), b)),
{
    let mut i: usize = 0;
    while i < ts.len()
        invariant
            i <= ts.len(),
            forall|b: Seq<char>| #[trigger] name_set(out@).contains(b) <==> (name_set(old(out)@).contains(b) || trait_members_refer(ts@.take(i as int), opt_view(f), b)),
        decreases ts.len() - i,
    {
        collect_in(&ts[i].fns, f, out);
        proof {
            assert forall|b: Seq<char>| #[trigger] name_set(out@).contains(b) <==> (name_set(old(out)@).contains(b) || trait_members_refer(ts@.take(i + 1), opt_view(f), b)) by {
                let t0 = ts@.take(i as int);
                let t1 = ts@.take(i + 1);
                if trait_members_refer(t0, opt_view(f), b) {
                    let j = choose|j: int| 0 <= j < t0.len() && refs_in((#[trigger] t0[j]).fns@, opt_view(f), b);
                    assert(t1[j] == t0[j]);
                }
                if trait_members_refer(t1, opt_view(f), b) {
                    let j = choose|j: int| 0 <= j < t1.len() && refs_in((#[trigger] t1[j]).fns@, opt_view(f), b);
                    if j < i {
                        assert(t0[j] == t1[j]);
                    }
                }
                if refs_in(ts@[i as int].fns@, opt_view(f), b) {
                    assert(t1[i as int] == ts@[i as int]);
                }
            }
        }
        i = i + 1;
    }
    assert(ts@.take(i as int) =~= ts@);
}

fn impl_admits(it: &ImplItem, f: &Option<String>) -> (r: bool)
    ensures
        r == impl_admitted(*it, opt_view(f)),
{
    if filter_admits(f, it.struct_name.as_str()) {
        return true;
    }
    match &it.trait_name {
        Some(t) => filter_admits(f, t.as_str()),
        None => false,
    }
}

fn collect_impls(is: &Vec<ImplItem>, f: &Option<String>, out: &mut Vec<String>)
    ensures
        forall|b: Seq<char>| #[trigger] name_set(final(out)@).contains(b) <==> (name_set(old(out)@).contains(b)
            || impls_refer(is@, opt_view(f), b) || impl_members_refer(is@, opt_view(f), b)),
{
    let mut i: usize = 0;
    while i < is.len()
        invariant
            i <= is.len(),
            forall|b: Seq<char>| #[trigger] name_set(out@).contains(b) <==> (name_set(old(out)@).contains(b)
                || impls_refer(is@.take(i as int), opt_view(f), b) || impl_members_refer(is@.take(i as int), opt_view(f), b)),
        decreases is.len() - i,
    {
        let ghost o0 = out@;
        if impl_admits(&is[i], f) {
            push_all(out, &is[i].applications);
        }
        let ghost o1 = out@;
        collect_in(&is[i].fns, f, out);
        proof {
            assert forall|b: Seq<char>| #[trigger] name_set(out@).contains(b) <==> (name_set(old(out)@).contains(b)
                || impls_refer(is@.take(i + 1), opt_view(f), b) || impl_members_refer(is@.take(i + 1), opt_view(f), b)) by {
                let t0 = is@.take(i as int);
                let t1 = is@.take(i + 1);
                assert(t1[i as int] == is@[i as int]);
                if impls_refer(t0, opt_view(f), b) {
                    let j = choose|j: int| 0 <= j < t0.len() && impl_admitted(#[trigger] t0[j], opt_view(f)) && name_set(t0[j].applications@).contains(b);
                    assert(t1[j] == t0[j]);
                }
                if impl_members_refer(t0, opt_view(f), b) {
                    let j = choose|j: int| 0 <= j < t0.len() && refs_in((#[trigger] t0[j]).fns@, opt_view(f), b);
                    assert(t1[j] == t0[j]);
                }
                if impls_refer(t1, opt_view(f), b) {
                    let j = choose|j: int| 0 <= j < t1.len() && impl_admitted(#[trigger] t1[j], opt_view(f)) && name_set(t1[j].applications@).contains(b);
                    if j < i {
                        assert(t0[j] == t1[j]);
                    }
                }
                if impl_members_refer(t1, opt_view(f), b) {
                    let j = choose|j: int| 0 <= j < t1.len() && refs_in((#[trigger] t1[j]).fns@, opt_view(f), b);
                    if j < i {
                        assert(t0[j] == t1[j]);
                    }
                }
            }
        }
        i = i + 1;
    }
    assert(is@.take(i as int) =~= is@);
}

/// Appends what the declarations of module `m` found under a name admitted by
/// `f` refer to.
fn module_refs(m: &ModContext, f: &Option<String>, out: &mut Vec<String>)
    ensures
        forall|b: Seq<char>| #[trigger] name_set(final(out)@).contains(b) <==> (name_set(old(out)@).contains(b) || module_refers(*m, opt_view(f), b)),
{
    collect_in(&m.fns, f, out);
    collect_in(&m.enums, f, out);
    collect_in(&m.structs, f, out);
    collect_in(&m.unions, f, out);
    collect_in(&m.traits, f, out);
    collect_trait_members(&m.traits, f, out);
    collect_impls(&m.impls, f, out);
}

/// Appends what every declaration found under a name admitted by `f` refers to.
fn all_refs(mods: &Vec<ModContext>, f: &Option<String>, out: &mut Vec<String>)
    ensures
        forall|b: Seq<char>| #[trigger] name_set(final(out)@).contains(b) <==> (name_set(old(out)@).contains(b) || refers_any(mods@, opt_view(f), b)),
{
    let mut i: usize = 0;
    while i < mods.len()
        invariant
            i <= mods.len(),
            forall|b: Seq<char>| #[trigger] name_set(out@).contains(b) <==> (name_set(old(out)@).contains(b) || refers_any(mods@.take(i as int), opt_view(f), b)),
        decreases mods.len() - i,
    {
        module_refs(&mods[i], f, out);
        proof {
            assert forall|b: Seq<char>| #[trigger] name_set(out@).contains(b) <==> (name_set(old(out)@).contains(b) || refers_any(mods@.take(i + 1), opt_view(f), b)) by {
                let t0 = mods@.take(i as int);
                let t1 = mods@.take(i + 1);
                assert(t1[i as int] == mods@[i as int]);
                if refers_any(t0, opt_view(f), b) {
                    let j = choose|j: int| 0 <= j < t0.len() && module_refers(#[trigger] t0[j], opt_view(f), b);
                    assert(t1[j] == t0[j]);
                }
                if refers_any(t1, opt_view(f), b) {
                    let j = choose|j: int| 0 <= j < t1.len() && module_refers(#[trigger] t1[j], opt_view(f), b);
                    if j < i {
                        assert(t0[j] == t1[j]);
                    }
                }
            }
        }
        i = i + 1;
    }
    assert(mods@.take(i as int) =~= mods@);
}


proof fn lemma_refs_in_unfiltered<T: Referring>(v: Seq<T>, f: Option<Seq<char>>, b: Seq<char>)
    requires
        refs_in(v, f, b),
    ensures
        refs_in(v, None, b),
{
    let j = choose|j: int| 0 <= j < v.len() && admits(f, (#[trigger] v[j]).key()) && name_set(v[j].refs()).contains(b);
    assert(admits(None, v[j].key()));
}

/// Whatever a declaration refers to is among the names that some declaration refers to.
proof fn lemma_edge_target_referred(mods: Seq<ModContext>, a: Seq<char>, b: Seq<char>)
    requires
        refers(mods, a, b),
    ensures
        refers_any(mods, None, b),
{
    let f = Some(a);
    let i = choose|i: int| 0 <= i < mods.len() && module_refers(#[trigger] mods[i], f, b);
    let m = mods[i];
    if refs_in(m.fns@, f, b) {
        lemma_refs_in_unfiltered(m.fns@, f, b);
    } else if refs_in(m.enums@, f, b) {
        lemma_refs_in_unfiltered(m.enums@, f, b);
    } else if refs_in(m.structs@, f, b) {
        lemma_refs_in_unfiltered(m.structs@, f, b);
    } else if refs_in(m.unions@, f, b) {
        lemma_refs_in_unfiltered(m.unions@, f, b);
    } else if refs_in(m.traits@, f, b) {
        lemma_refs_in_unfiltered(m.traits@, f, b);
    } else if trait_members_refer(m.traits@, f, b) {
        let j = choose|j: int| 0 <= j < m.traits@.len() && refs_in((#[trigger] m.traits@[j]).fns@, f, b);
        lemma_refs_in_unfiltered(m.traits@[j].fns@, f, b);
        assert(trait_members_refer(m.traits@, None, b));
    } else if impls_refer(m.impls@, f, b) {
        let j = choose|j: int| 0 <= j < m.impls@.len() && impl_admitted(#[trigger] m.impls@[j], f) && name_set(m.impls@[j].applications@).contains(b);
        assert(impl_admitted(m.impls@[j], None));
        assert(impls_refer(m.impls@, None, b));
    } else {
        let j = choose|j: int| 0 <= j < m.impls@.len() && refs_in((#[trigger] m.impls@[j]).fns@, f, b);
        lemma_refs_in_unfiltered(m.impls@[j].fns@, f, b);
        assert(impl_members_refer(m.impls@, None, b));
    }
    assert(module_refers(mods[i], None, b));
}

/// A set that holds the seeds and is closed under references holds every
/// name reachable from the seeds.
proof fn lemma_closed_holds_path_end(mods: Seq<ModContext>, seeds: Set<Seq<char>>, vis: Set<Seq<char>>, p: Seq<Seq<char>>)
    requires
        is_path(mods, p),
        seeds.contains(p[0]),
        seeds.subset_of(vis),
        forall|x: Seq<char>, b: Seq<char>| vis.contains(x) && #[trigger] refers(mods, x, b) ==> vis.contains(b),
    ensures
        vis.contains(p.last()),
    decreases p.len(),
{
    if p.len() > 1 {
        let q = p.drop_last();
        assert forall|k: int| 0 <= k < q.len() - 1 implies refers(mods, #[trigger] q[k], q[k + 1]) by {
            assert(refers(mods, p[k], p[k + 1]));
        }
        lemma_closed_holds_path_end(mods, seeds, vis, q);
        assert(refers(mods, p[p.len() - 2], p[p.len() - 1]));
    }
}

/// One more edge from a reachable name reaches its target.
proof fn lemma_reach_step(mods: Seq<ModContext>, seeds: Set<Seq<char>>, x: Seq<char>, b: Seq<char>)
    requires
        reachable(mods, seeds, x),
        refers(mods, x, b),
    ensures
        reachable(mods, seeds, b),
{
    let p = choose|p: Seq<Seq<char>>| is_path(mods, p) && seeds.contains(p[0]) && p.last() == x;
    let q = p.push(b);
    assert forall|k: int| 0 <= k < q.len() - 1 implies refers(mods, #[trigger] q[k], q[k + 1]) by {
        if k < p.len() - 1 {
            assert(refers(mods, p[k], p[k + 1]));
        }
    }
    assert(q[0] == p[0]);
    assert(is_path(mods, q) && seeds.contains(q[0]) && q.last() == b);
}

/// Computes into `indirect_applications` every name reachable from
/// `direct_applications` along the references of the declarations of
/// `mod_contexts`, the direct names included: a worklist that expands each
/// name once. The result is in name order, without repeats.
pub fn parse_direct_applications(
    mod_contexts: &Vec<ModContext>,
    direct_applications: &Vec<String>,
    indirect_applications: &mut Vec<String>,
)
    ensures
        sorted_by_key(final(indirect_applications)@),
        name_set(final(indirect_applications)@) == closure_of(mod_contexts@, name_set(direct_applications@)),
{
    let ghost mods = mod_contexts@;
    let ghost seeds = name_set(direct_applications@);
    let mut universe: Vec<String> = Vec::new();
    all_refs(mod_contexts, &None, &mut universe);
    push_all(&mut universe, direct_applications);
    let ghost u = name_set(universe@);
    proof {
        lemma_keys_finite(universe@);
    }
    let mut visited: Vec<String> = Vec::new();
    let mut pending: Vec<String> = Vec::new();
    push_all(&mut pending, direct_applications);
    proof {
        assert forall|x: Seq<char>| name_set(pending@).contains(x) implies reachable(mods, seeds, x) by {
            let p = seq![x];
            assert(pending@ =~= direct_applications@);
            assert(is_path(mods, p) && seeds.contains(p[0]) && p.last() == x);
        }
        assert(name_set(visited@) =~= Set::empty());
    }
    while pending.len() > 0
        invariant
            u.finite(),
            u == name_set(universe@),
            forall|b: Seq<char>| #[trigger] u.contains(b) <==> (refers_any(mods, None, b) || seeds.contains(b)),
            sorted_by_key(visited@),
            name_set(visited@).subset_of(u),
            name_set(pending@).subset_of(u),
            forall|x: Seq<char>| name_set(visited@).contains(x) || name_set(pending@).contains(x) ==> reachable(mods, seeds, x),
            forall|x: Seq<char>, b: Seq<char>| name_set(visited@).contains(x) && #[trigger] refers(mods, x, b)
                ==> name_set(visited@).contains(b) || name_set(pending@).contains(b),
            seeds.subset_of(name_set(visited@) + name_set(pending@)),
            mods == mod_contexts@,
            seeds == name_set(direct_applications@),
        decreases u.len() - name_set(visited@).len(), pending.len(),
    {
        let ghost p0 = pending@;
        let ghost v0 = name_set(visited@);
        let x = pending.pop().unwrap();
        proof {
            assert(p0 =~= pending@.push(x));
            crate::keyed::lemma_keys_concat(pending@, seq![x]);
            assert(name_set(seq![x]) =~= set![x@]) by {
                assert(seq![x][0].key() == x@);
            }
            assert(name_set(p0) == name_set(pending@).insert(x@));
            lemma_keys_finite(visited@);
            vstd::set_lib::lemma_len_subset(v0, u);
        }
        match find_key(&visited, x.as_str()) {
            Some(_) => {
                proof {
                    assert(name_set(visited@).contains(x@));
                }
            },
            None => {
                let mut succ: Vec<String> = Vec::new();
                let filter = Some(x.clone());
                all_refs(mod_contexts, &filter, &mut succ);
                let ghost xs = x@;
                insert_keyed(&mut visited, x);
                push_all(&mut pending, &succ);
                proof {
                    assert(name_set(visited@) == v0.insert(xs));
                    assert(forall|b: Seq<char>| #[trigger] name_set(succ@).contains(b) <==> refers(mods, xs, b));
                    assert forall|b: Seq<char>| name_set(succ@).contains(b) implies u.contains(b) by {
                        lemma_edge_target_referred(mods, xs, b);
                    }
                    assert forall|b: Seq<char>| name_set(succ@).contains(b) implies reachable(mods, seeds, b) by {
                        lemma_reach_step(mods, seeds, xs, b);
                    }
                    lemma_keys_finite(visited@);
                    vstd::set_lib::lemma_len_subset(name_set(visited@), u);
                }
            },
        }
    }
    proof {
        let vis = name_set(visited@);
        assert(name_set(pending@) =~= Set::empty()) by {
            assert forall|k: Seq<char>| !name_set(pending@).contains(k) by {}
        }
        assert forall|x: Seq<char>| closure_of(mods, seeds).contains(x) implies vis.contains(x) by {
            let p = choose|p: Seq<Seq<char>>| is_path(mods, p) && seeds.contains(p[0]) && p.last() == x;
            lemma_closed_holds_path_end(mods, seeds, vis, p);
        }
        assert(vis =~= closure_of(mods, seeds));
    }
    *indirect_applications = visited;
}

} // verus!
