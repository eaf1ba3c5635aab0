use vstd::prelude::*;
use crate::assembly::{CompoundModel, FileModel, RenderedItem, RenderedCompound, SynFile, text_views, row_views, compound_views, file_views};

verus! {

/// Each text followed by a line break.
pub open spec fn lines(s: Seq<Seq<char>>) -> Seq<char>
    decreases s.len(),
{
    if s.len() == 0 {
        Seq::empty()
    } else {
        lines(s.drop_last()) + s.last() + "\n"@
    }
}

/// The text of each row followed by a line break.
pub open spec fn row_lines(s: Seq<(Seq<char>, Seq<char>)>) -> Seq<char>
    decreases s.len(),
{
    if s.len() == 0 {
        Seq::empty()
    } else {
        row_lines(s.drop_last()) + s.last().1 + "\n"@
    }
}

/// A trait or impl block: its opening, its members, and the closing brace.
pub open spec fn compound_text(c: CompoundModel) -> Seq<char> {
    c.header + "\n"@ + lines(c.types) + lines(c.consts) + row_lines(c.fns) + "}"@
}

pub open spec fn compound_lines(s: Seq<CompoundModel>) -> Seq<char>
    decreases s.len(),
{
    if s.len() == 0 {
        Seq::empty()
    } else {
        compound_lines(s.drop_last()) + compound_text(s.last()) + "\n"@
    }
}

/// The declarations of a module in the fixed order of kinds: imports, statics,
/// constants, functions, macros, type aliases, opaque type aliases, enums,
/// structs, unions, traits, trait aliases, impl blocks.
pub open spec fn items_text(f: FileModel) -> Seq<char> {
    lines(f.uses) + lines(f.statics) + lines(f.consts) + row_lines(f.fns) + lines(f.macros) + lines(f.ty_aliases)
        + lines(f.opaque_tys)
        + row_lines(f.enums) + row_lines(f.structs) + row_lines(f.unions) + compound_lines(f.traits)
        + lines(f.trait_aliases) + compound_lines(f.impls)
}

/// One module's section: a comment line with its name, then its declarations.
pub open spec fn section_text(name: Seq<char>, body: Seq<char>) -> Seq<char> {
    "// "@ + name + "\n"@ + body + "\n"@
}

pub open spec fn files_text(s: Seq<FileModel>) -> Seq<char>
    decreases s.len(),
{
    if s.len() == 0 {
        Seq::empty()
    } else {
        files_text(s.drop_last()) + section_text(s.last().name, items_text(s.last()))
    }
}

fn append_lines(out: &mut String, s: &Vec<String>)
    ensures
        final(out)@ == old(out)@ + lines(text_views(s@)),
{
    let mut j: usize = 0;
    while j < s.len()
        invariant
            j <= s.len(),
            out@ == old(out)@ + lines(text_views(s@.take(j as int))),
        decreases s.len() - j,
    {
        proof {
            assert(text_views(s@.take(j + 1)).drop_last() =~= text_views(s@.take(j as int)));
            assert(text_views(s@.take(j + 1)).last() == s@[j as int]@);
        }
        out.append(s[j].as_str());
        out.append("\n");
        j = j + 1;
        assert(out@ =~= old(out)@ + lines(text_views(s@.take(j as int))));
    }
    assert(s@.take(j as int) =~= s@);
}

fn append_rows(out: &mut String, s: &Vec<RenderedItem>)
    ensures
        final(out)@ == old(out)@ + row_lines(row_views(s@)),
{
    let mut j: usize = 0;
    while j < s.len()
        invariant
            j <= s.len(),
            out@ == old(out)@ + row_lines(row_views(s@.take(j as int))),
        decreases s.len() - j,
    {
        proof {
            assert(row_views(s@.take(j + 1)).drop_last() =~= row_views(s@.take(j as int)));
            assert(row_views(s@.take(j + 1)).last() == s@[j as int]@);
        }
        out.append(s[j].codes.as_str());
        out.append("\n");
        j = j + 1;
        assert(out@ =~= old(out)@ + row_lines(row_views(s@.take(j as int))));
    }
    assert(s@.take(j as int) =~= s@);
}

impl RenderedCompound {
    /// The block's text: its opening, its members, and the closing brace.
    pub fn to_string(&self) -> (r: String)
        ensures
            r@ == compound_text(self@),
    {
        let mut r = self.header.clone();
        r.append("\n");
        append_lines(&mut r, &self.types);
        append_lines(&mut r, &self.consts);
        append_rows(&mut r, &self.fns);
        r.append("}");
        r
    }
}

fn append_compounds(out: &mut String, s: &Vec<RenderedCompound>)
    ensures
        final(out)@ == old(out)@ + compound_lines(compound_views(s@)),
{
    let mut j: usize = 0;
    while j < s.len()
        invariant
            j <= s.len(),
            out@ == old(out)@ + compound_lines(compound_views(s@.take(j as int))),
        decreases s.len() - j,
    {
        proof {
            assert(compound_views(s@.take(j + 1)).drop_last() =~= compound_views(s@.take(j as int)));
            assert(compound_views(s@.take(j + 1)).last() == s@[j as int]@);
        }
        let c = s[j].to_string();
        out.append(c.as_str());
        out.append("\n");
        j = j + 1;
        assert(out@ =~= old(out)@ + compound_lines(compound_views(s@.take(j as int))));
    }
    assert(s@.take(j as int) =~= s@);
}

impl SynFile {
    /// The module's declarations in the fixed order of kinds, before layout.
    pub fn items_text(&self) -> (r: String)
        ensures
            r@ == items_text(self@),
    {
        let mut r = String::new();
        append_lines(&mut r, &self.uses);
        append_lines(&mut r, &self.statics);
        append_lines(&mut r, &self.consts);
        append_rows(&mut r, &self.fns);
        append_lines(&mut r, &self.macros);
        append_lines(&mut r, &self.ty_aliases);
        append_lines(&mut r, &self.opaque_tys);
        append_rows(&mut r, &self.enums);
        append_rows(&mut r, &self.structs);
        append_rows(&mut r, &self.unions);
        append_compounds(&mut r, &self.traits);
        append_lines(&mut r, &self.trait_aliases);
        append_compounds(&mut r, &self.impls);
        assert(r@ =~= items_text(self@));
        r
    }

}

/// The sections of all the modules, in order, with the declarations as they
/// were selected.
pub fn to_string(files: &Vec<SynFile>) -> (r: String)
    ensures
        r@ == files_text(file_views(files@)),
{
    let mut s = String::new();
    let mut j: usize = 0;
    while j < files.len()
        invariant
            j <= files.len(),
            s@ == files_text(file_views(files@.take(j as int))),
        decreases files.len() - j,
    {
        proof {
            assert(file_views(files@.take(j + 1)).drop_last() =~= file_views(files@.take(j as int)));
            assert(file_views(files@.take(j + 1)).last() == files@[j as int]@);
        }
        s.append("// ");
        s.append(files[j].name.as_str());
        s.append("\n");
        let body = files[j].items_text();
        s.append(body.as_str());
        s.append("\n");
        j = j + 1;
        assert(s@ =~= files_text(file_views(files@.take(j as int))));
    }
    assert(files@.take(j as int) =~= files@);
    s
}


/// A module's section of a context: the module's name and its selected
/// declarations, one after the other.
pub struct Section {
    pub name: String,
    pub body: String,
}

impl View for Section {
    type V = (Seq<char>, Seq<char>);

    open spec fn view(&self) -> (Seq<char>, Seq<char>) {
        (self.name@, self.body@)
    }
}

pub open spec fn section_views(s: Seq<Section>) -> Seq<(Seq<char>, Seq<char>)> {
    s.map_values(|x: Section| x@)
}

/// Each module's name with its declarations in the fixed order of kinds.
pub open spec fn files_sections(fs: Seq<FileModel>) -> Seq<(Seq<char>, Seq<char>)> {
    fs.map_values(|f: FileModel| (f.name, items_text(f)))
}

/// The sections of the given modules.
pub fn sections(files: &Vec<SynFile>) -> (r: Vec<Section>)
    ensures
        section_views(r@) == files_sections(file_views(files@)),
{
    let mut out: Vec<Section> = Vec::new();
    let mut j: usize = 0;
    while j < files.len()
        invariant
            j <= files.len(),
            section_views(out@) == files_sections(file_views(files@.take(j as int))),
        decreases files.len() - j,
    {
        let ghost before = out@;
        let s = Section { name: files[j].name.clone(), body: files[j].items_text() };
        out.push(s);
        proof {
            assert(section_views(out@) =~= section_views(before).push(s@));
            assert(file_views(files@.take(j + 1)) =~= file_views(files@.take(j as int)).push(files@[j as int]@));
        }
        j = j + 1;
        assert(section_views(out@) =~= files_sections(file_views(files@.take(j as int))));
    }
    assert(files@.take(j as int) =~= files@);
    out
}

pub open spec fn printed_views(p: Seq<Option<String>>) -> Seq<Option<Seq<char>>> {
    p.map_values(|x: Option<String>| match x {
        Some(t) => Some(t@),
        None => None,
    })
}

/// The sections one after the other, each body replaced by its printed form
/// where `printed` has one.
pub open spec fn composed(secs: Seq<(Seq<char>, Seq<char>)>, printed: Seq<Option<Seq<char>>>) -> Seq<char>
    decreases secs.len(),
{
    if secs.len() == 0 || printed.len() != secs.len() {
        Seq::empty()
    } else {
        composed(secs.drop_last(), printed.drop_last()) + section_text(secs.last().0, match printed.last() {
            Some(p) => p,
            None => secs.last().1,
        })
    }
}

/// The text of a context from its sections and, for each section, the printed
/// form of its body if one was made.
pub fn compose_text(secs: &Vec<Section>, printed: &Vec<Option<String>>) -> (r: String)
    requires
        printed@.len() == secs@.len(),
    ensures
        r@ == composed(section_views(secs@), printed_views(printed@)),
{
    let mut s = String::new();
    let mut j: usize = 0;
    while j < secs.len()
        invariant
            j <= secs.len(),
            printed@.len() == secs@.len(),
            s@ == composed(section_views(secs@.take(j as int)), printed_views(printed@.take(j as int))),
        decreases secs.len() - j,
    {
        proof {
            assert(section_views(secs@.take(j + 1)).drop_last() =~= section_views(secs@.take(j as int)));
            assert(printed_views(printed@.take(j + 1)).drop_last() =~= printed_views(printed@.take(j as int)));
            assert(section_views(secs@.take(j + 1)).last() == secs@[j as int]@);
            assert(printed_views(printed@.take(j + 1)).last() == printed_views(printed@)[j as int]);
        }
        s.append("// ");
        s.append(secs[j].name.as_str());
        s.append("\n");
        match &printed[j] {
            Some(p) => s.append(p.as_str()),
            None => s.append(secs[j].body.as_str()),
        }
        s.append("\n");
        j = j + 1;
        assert(s@ =~= composed(section_views(secs@.take(j as int)), printed_views(printed@.take(j as int))));
    }
    assert(secs@.take(j as int) =~= secs@);
    assert(printed@.take(j as int) =~= printed@);
    s
}

} // verus!
