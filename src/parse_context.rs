use vstd::prelude::*;
use crate::assembly::{files_model, file_views, parse_applications, text_views, lemma_name_set_views};
use crate::text::{str_lt, sorted_seq, lemma_sorted_seq_is};
use crate::closure::{closure_of, parse_direct_applications};
use crate::encoding::{encoded, encoded_name};
use crate::keyed::{Keyed, name_set, keys_of, sorted_by_key, insert_keyed, push_all, lemma_keys_concat};
use crate::mod_context::{ModContext, FnItem, InnerFnItem, TraitItem, ImplItem, modules_ok};
use crate::render::{Section, files_sections, section_views, sections};

verus! {

/// The sections of the context of the entry point whose seed names are
/// `seeds`: what is named in `seeds` in full, what is reached from them as
/// the selection rules say, module by module in the order first touched.
pub open spec fn context_sections(mods: Seq<ModContext>, seeds: Set<Seq<char>>) -> Seq<(Seq<char>, Seq<char>)> {
    files_sections(files_model(mods, sorted_seq(seeds), sorted_seq(closure_of(mods, seeds))))
}

/// The names of `v`, in name order and without repeats.
pub fn sorted_names(v: &Vec<String>) -> (r: Vec<String>)
    ensures
        sorted_by_key(r@),
        name_set(r@) == name_set(v@),
{
    let mut r: Vec<String> = Vec::new();
    let mut j: usize = 0;
    proof {
        assert(name_set(r@) =~= name_set(v@.take(0)));
    }
    while j < v.len()
        invariant
            j <= v.len(),
            sorted_by_key(r@),
            name_set(r@) == name_set(v@.take(j as int)),
        decreases v.len() - j,
    {
        insert_keyed(&mut r, v[j].clone());
        proof {
            assert(v@.take(j + 1) =~= v@.take(j as int) + seq![v@[j as int]]);
            lemma_keys_concat(v@.take(j as int), seq![v@[j as int]]);
            assert(name_set(seq![v@[j as int]]) =~= set![v@[j as int]@]) by {
                assert(seq![v@[j as int]][0].key() == v@[j as int]@);
            }
            assert(name_set(r@) =~= name_set(v@.take(j + 1)));
        }
        j = j + 1;
    }
    assert(v@.take(j as int) =~= v@);
    r
}

/// The context of one entry point: `seeds` are its own name, the names it
/// refers to, and those of the trait or impl block and the module around it.
pub fn focal_context(mods: &Vec<ModContext>, seeds: &Vec<String>) -> (r: Vec<Section>)
    requires
        modules_ok(mods@),
    ensures
        section_views(r@) == context_sections(mods@, name_set(seeds@)),
{
    let direct = sorted_names(seeds);
    let mut indirect: Vec<String> = Vec::new();
    parse_direct_applications(mods, &direct, &mut indirect);
    let files = parse_applications(mods, &direct, &indirect);
    proof {
        lemma_name_set_views(direct@);
        lemma_name_set_views(indirect@);
        assert forall|a: int, b: int| 0 <= a < b < text_views(direct@).len() implies
            str_lt(#[trigger] text_views(direct@)[a], #[trigger] text_views(direct@)[b]) by {
            assert(str_lt(direct@[a].key(), direct@[b].key()));
        }
        assert forall|a: int, b: int| 0 <= a < b < text_views(indirect@).len() implies
            str_lt(#[trigger] text_views(indirect@)[a], #[trigger] text_views(indirect@)[b]) by {
            assert(str_lt(indirect@[a].key(), indirect@[b].key()));
        }
        lemma_sorted_seq_is(text_views(direct@), name_set(seeds@));
        lemma_sorted_seq_is(text_views(indirect@), closure_of(mods@, name_set(seeds@)));
    }
    sections(&files)
}

/// The context written for one entry point, and the file it goes to.
pub struct FocalContext {
    pub name: String,
    pub file_name: String,
    pub sections: Vec<Section>,
}

impl View for FocalContext {
    type V = (Seq<char>, Seq<char>, Seq<(Seq<char>, Seq<char>)>);

    open spec fn view(&self) -> (Seq<char>, Seq<char>, Seq<(Seq<char>, Seq<char>)>) {
        (self.name@, self.file_name@, section_views(self.sections@))
    }
}

impl Keyed for FocalContext {
    open spec fn key(&self) -> Seq<char> {
        self.name@
    }

    fn key_str(&self) -> (r: &str) {
        self.name.as_str()
    }
}


pub open spec fn ctx_views(s: Seq<FocalContext>) -> Seq<(Seq<char>, Seq<char>, Seq<(Seq<char>, Seq<char>)>)> {
    s.map_values(|c: FocalContext| c@)
}

/// An entry point: its name, and as seeds its name, the names it refers to,
/// those of the block around it (`outer`) and those of its module.
pub open spec fn entry(name: Seq<char>, own: Seq<String>, outer: Set<Seq<char>>, m: ModContext) -> (Seq<char>, Set<Seq<char>>) {
    (name, set![name] + name_set(own) + outer + name_set(m.applications@))
}

pub open spec fn fn_entries(m: ModContext, fs: Seq<FnItem>) -> Seq<(Seq<char>, Set<Seq<char>>)>
    decreases fs.len(),
{
    if fs.len() == 0 {
        Seq::empty()
    } else {
        fn_entries(m, fs.drop_last()) + seq![entry(fs.last().name@, fs.last().applications@, Set::empty(), m)]
    }
}

pub open spec fn member_entries(m: ModContext, fs: Seq<InnerFnItem>, outer: Set<Seq<char>>) -> Seq<(Seq<char>, Set<Seq<char>>)>
    decreases fs.len(),
{
    if fs.len() == 0 {
        Seq::empty()
    } else {
        member_entries(m, fs.drop_last(), outer) + seq![entry(fs.last().name@, fs.last().applications@, outer, m)]
    }
}

pub open spec fn trait_entries(m: ModContext, ts: Seq<TraitItem>) -> Seq<(Seq<char>, Set<Seq<char>>)>
    decreases ts.len(),
{
    if ts.len() == 0 {
        Seq::empty()
    } else {
        trait_entries(m, ts.drop_last()) + member_entries(m, ts.last().fns@, name_set(ts.last().applications@))
    }
}

pub open spec fn impl_entries(m: ModContext, is: Seq<ImplItem>) -> Seq<(Seq<char>, Set<Seq<char>>)>
    decreases is.len(),
{
    if is.len() == 0 {
        Seq::empty()
    } else {
        impl_entries(m, is.drop_last()) + member_entries(m, is.last().fns@, name_set(is.last().applications@))
    }
}

/// The entry points of a module: its functions, then the methods of its
/// traits, then the methods of its impl blocks.
pub open spec fn module_entries(m: ModContext) -> Seq<(Seq<char>, Set<Seq<char>>)> {
    fn_entries(m, m.fns@) + trait_entries(m, m.traits@) + impl_entries(m, m.impls@)
}

pub open spec fn entries(mods: Seq<ModContext>) -> Seq<(Seq<char>, Set<Seq<char>>)>
    decreases mods.len(),
{
    if mods.len() == 0 {
        Seq::empty()
    } else {
        entries(mods.drop_last()) + module_entries(mods.last())
    }
}

/// For each entry point: its name, its file name, and its context over all modules `all`.
pub open spec fn expected_contexts(all: Seq<ModContext>, es: Seq<(Seq<char>, Set<Seq<char>>)>) -> Seq<(Seq<char>, Seq<char>, Seq<(Seq<char>, Seq<char>)>)> {
    es.map_values(|e: (Seq<char>, Set<Seq<char>>)| (e.0, encoded(e.0), context_sections(all, e.1)))
}

fn entry_context(mods: &Vec<ModContext>, name: &String, own: &Vec<String>, outer: &Vec<String>, m: &ModContext) -> (r: FocalContext)
    requires
        modules_ok(mods@),
    ensures
        r@ == (name@, encoded(name@), context_sections(mods@, entry(name@, own@, name_set(outer@), *m).1)),
{
    let mut seeds: Vec<String> = Vec::new();
    seeds.push(name.clone());
    proof {
        assert(name_set(seeds@) =~= set![name@]) by {
            assert(seeds@[0].key() == name@);
        }
    }
    push_all(&mut seeds, own);
    push_all(&mut seeds, outer);
    push_all(&mut seeds, &m.applications);
    FocalContext { name: name.clone(), file_name: encoded_name(name.as_str()), sections: focal_context(mods, &seeds) }
}

fn push_fn_entries(mods: &Vec<ModContext>, m: &ModContext, out: &mut Vec<FocalContext>)
    requires
        modules_ok(mods@),
    ensures
        ctx_views(final(out)@) == ctx_views(old(out)@) + expected_contexts(mods@, fn_entries(*m, m.fns@)),
{
    let none: Vec<String> = Vec::new();
    proof {
        assert(name_set(none@) =~= Set::empty());
    }
    let mut j: usize = 0;
    while j < m.fns.len()
        invariant
            j <= m.fns.len(),
            name_set(none@) == Set::<Seq<char>>::empty(),
            modules_ok(mods@),
            ctx_views(out@) == ctx_views(old(out)@) + expected_contexts(mods@, fn_entries(*m, m.fns@.take(j as int))),
        decreases m.fns.len() - j,
    {
        proof {
            assert(m.fns@.take(j + 1).drop_last() =~= m.fns@.take(j as int));
        }
        let c = entry_context(mods, &m.fns[j].name, &m.fns[j].applications, &none, m);
        let ghost before = out@;
        out.push(c);
        proof {
            let f = m.fns@[j as int];
            let e = entry(f.name@, f.applications@, Set::empty(), *m);
            assert(m.fns@.take(j + 1).last() == f);
            assert(fn_entries(*m, m.fns@.take(j + 1)) == fn_entries(*m, m.fns@.take(j as int)) + seq![e]);
            assert(c@ == (e.0, encoded(e.0), context_sections(mods@, e.1)));
            assert(expected_contexts(mods@, fn_entries(*m, m.fns@.take(j + 1))) =~= expected_contexts(mods@, fn_entries(*m, m.fns@.take(j as int))).push(c@));
            assert(ctx_views(out@) =~= ctx_views(before).push(c@));
        }
        j = j + 1;
        assert(ctx_views(out@) =~= ctx_views(old(out)@) + expected_contexts(mods@, fn_entries(*m, m.fns@.take(j as int))));
    }
    assert(m.fns@.take(j as int) =~= m.fns@);
}

fn push_member_entries(mods: &Vec<ModContext>, m: &ModContext, fs: &Vec<InnerFnItem>, outer: &Vec<String>, out: &mut Vec<FocalContext>)
    requires
        modules_ok(mods@),
    ensures
        ctx_views(final(out)@) == ctx_views(old(out)@) + expected_contexts(mods@, member_entries(*m, fs@, name_set(outer@))),
{
    let mut j: usize = 0;
    while j < fs.len()
        invariant
            j <= fs.len(),
            modules_ok(mods@),
            ctx_views(out@) == ctx_views(old(out)@) + expected_contexts(mods@, member_entries(*m, fs@.take(j as int), name_set(outer@))),
        decreases fs.len() - j,
    {
        proof {
            assert(fs@.take(j + 1).drop_last() =~= fs@.take(j as int));
        }
        let c = entry_context(mods, &fs[j].name, &fs[j].applications, outer, m);
        let ghost before = out@;
        out.push(c);
        proof {
            let f = fs@[j as int];
            let e = entry(f.name@, f.applications@, name_set(outer@), *m);
            assert(fs@.take(j + 1).last() == f);
            assert(member_entries(*m, fs@.take(j + 1), name_set(outer@)) == member_entries(*m, fs@.take(j as int), name_set(outer@)) + seq![e]);
            assert(expected_contexts(mods@, member_entries(*m, fs@.take(j + 1), name_set(outer@))) =~= expected_contexts(mods@, member_entries(*m, fs@.take(j as int), name_set(outer@))).push(c@));
            assert(ctx_views(out@) =~= ctx_views(before).push(c@));
        }
        j = j + 1;
        assert(ctx_views(out@) =~= ctx_views(old(out)@) + expected_contexts(mods@, member_entries(*m, fs@.take(j as int), name_set(outer@))));
    }
    assert(fs@.take(j as int) =~= fs@);
}

fn push_trait_entries(mods: &Vec<ModContext>, m: &ModContext, out: &mut Vec<FocalContext>)
    requires
        modules_ok(mods@),
    ensures
        ctx_views(final(out)@) == ctx_views(old(out)@) + expected_contexts(mods@, trait_entries(*m, m.traits@)),
{
    let mut j: usize = 0;
    while j < m.traits.len()
        invariant
            j <= m.traits.len(),
            modules_ok(mods@),
            ctx_views(out@) == ctx_views(old(out)@) + expected_contexts(mods@, trait_entries(*m, m.traits@.take(j as int))),
        decreases m.traits.len() - j,
    {
        proof {
            assert(m.traits@.take(j + 1).drop_last() =~= m.traits@.take(j as int));
        }
        let ghost before = out@;
        push_member_entries(mods, m, &m.traits[j].fns, &m.traits[j].applications, out);
        j = j + 1;
        assert(ctx_views(out@) =~= ctx_views(old(out)@) + expected_contexts(mods@, trait_entries(*m, m.traits@.take(j as int))));
    }
    assert(m.traits@.take(j as int) =~= m.traits@);
}

fn push_impl_entries(mods: &Vec<ModContext>, m: &ModContext, out: &mut Vec<FocalContext>)
    requires
        modules_ok(mods@),
    ensures
        ctx_views(final(out)@) == ctx_views(old(out)@) + expected_contexts(mods@, impl_entries(*m, m.impls@)),
{
    let mut j: usize = 0;
    while j < m.impls.len()
        invariant
            j <= m.impls.len(),
            modules_ok(mods@),
            ctx_views(out@) == ctx_views(old(out)@) + expected_contexts(mods@, impl_entries(*m, m.impls@.take(j as int))),
        decreases m.impls.len() - j,
    {
        proof {
            assert(m.impls@.take(j + 1).drop_last() =~= m.impls@.take(j as int));
        }
        push_member_entries(mods, m, &m.impls[j].fns, &m.impls[j].applications, out);
        j = j + 1;
        assert(ctx_views(out@) =~= ctx_views(old(out)@) + expected_contexts(mods@, impl_entries(*m, m.impls@.take(j as int))));
    }
    assert(m.impls@.take(j as int) =~= m.impls@);
}

/// The focal contexts of all the entry points of a list of modules.
pub struct ParseContext<'a> {
    pub mod_contexts: &'a Vec<ModContext>,
}

impl<'a> ParseContext<'a> {
    pub fn new(mod_contexts: &'a Vec<ModContext>) -> (r: ParseContext<'a>)
        ensures
            r.mod_contexts@ == mod_contexts@,
    {
        ParseContext { mod_contexts }
    }

    /// One context for each entry point, module by module: its functions,
    /// then its trait methods, then its impl methods.
    pub fn parse_context(&self) -> (r: Vec<FocalContext>)
        requires
            modules_ok(self.mod_contexts@),
        ensures
            ctx_views(r@) == expected_contexts(self.mod_contexts@, entries(self.mod_contexts@)),
    {
        let mods = self.mod_contexts;
        let mut out: Vec<FocalContext> = Vec::new();
        let mut j: usize = 0;
        while j < mods.len()
            invariant
                j <= mods.len(),
                mods == self.mod_contexts,
                modules_ok(mods@),
                ctx_views(out@) == expected_contexts(mods@, entries(mods@.take(j as int))),
            decreases mods.len() - j,
        {
            proof {
                assert(mods@.take(j + 1).drop_last() =~= mods@.take(j as int));
            }
            let m = &mods[j];
            push_fn_entries(mods, m, &mut out);
            push_trait_entries(mods, m, &mut out);
            push_impl_entries(mods, m, &mut out);
            j = j + 1;
            assert(ctx_views(out@) =~= expected_contexts(mods@, entries(mods@.take(j as int))));
        }
        assert(mods@.take(j as int) =~= mods@);
        out
    }
}


/// One line of the name map: an entry point and the file its context is written to.
pub struct NameEntry {
    pub name: String,
    pub file_name: String,
}

impl Keyed for NameEntry {
    open spec fn key(&self) -> Seq<char> {
        self.name@
    }

    fn key_str(&self) -> (r: &str) {
        self.name.as_str()
    }
}

/// Among the first `n` contexts there is one with the name and file name of `e`.
pub open spec fn listed(cs: Seq<FocalContext>, n: int, e: NameEntry) -> bool {
    exists|p: int| 0 <= p < n && (#[trigger] cs[p]).name@ == e.name@ && cs[p].file_name@ == e.file_name@
}

/// The name map of a run: each entry point's name with its file name, in name
/// order, once per name.
pub fn name_map(contexts: &Vec<FocalContext>) -> (r: Vec<NameEntry>)
    ensures
        sorted_by_key(r@),
        keys_of(r@) == keys_of(contexts@),
        forall|q: int| 0 <= q < r@.len() ==> listed(contexts@, contexts@.len() as int, #[trigger] r@[q]),
{
    let mut r: Vec<NameEntry> = Vec::new();
    let mut j: usize = 0;
    proof {
        assert(keys_of(r@) =~= keys_of(contexts@.take(0)));
    }
    while j < contexts.len()
        invariant
            j <= contexts.len(),
            sorted_by_key(r@),
            keys_of(r@) == keys_of(contexts@.take(j as int)),
            forall|q: int| 0 <= q < r@.len() ==> listed(contexts@, j as int, #[trigger] r@[q]),
        decreases contexts.len() - j,
    {
        let e = NameEntry { name: contexts[j].name.clone(), file_name: contexts[j].file_name.clone() };
        let ghost before = r@;
        insert_keyed(&mut r, e);
        proof {
            assert forall|q: int| 0 <= q < r@.len() implies listed(contexts@, j + 1, #[trigger] r@[q]) by {
                assert(r@.contains(r@[q]));
                if r@[q] != e {
                    let m = choose|m: int| 0 <= m < before.len() && before[m] == r@[q];
                    assert(listed(contexts@, j as int, before[m]));
                    let p = choose|p: int| 0 <= p < j && (#[trigger] contexts@[p]).name@ == before[m].name@ && contexts@[p].file_name@ == before[m].file_name@;
                    assert(0 <= p < j + 1 && contexts@[p].name@ == r@[q].name@ && contexts@[p].file_name@ == r@[q].file_name@);
                } else {
                    assert(contexts@[j as int].name@ == r@[q].name@);
                }
            }
            assert(contexts@.take(j + 1) =~= contexts@.take(j as int) + seq![contexts@[j as int]]);
            lemma_keys_concat(contexts@.take(j as int), seq![contexts@[j as int]]);
            assert(keys_of(seq![contexts@[j as int]]) =~= set![e.name@]) by {
                assert(seq![contexts@[j as int]][0].key() == e.name@);
            }
            assert(keys_of(r@) =~= keys_of(contexts@.take(j + 1)));
        }
        j = j + 1;
    }
    assert(contexts@.take(j as int) =~= contexts@);
    r
}

} // verus!
