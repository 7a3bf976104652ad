//! The import table: for each imported module, whether all its public words
//! are imported and which words and sample words are.
use crate::text::str_equal;
use crate::value::copy_string;
use vstd::prelude::*;

verus! {

/// The import state of one module.
pub struct ImportedModule {
    pub import_all_public: bool,
    pub imported_words: Vec<String>,
    pub imported_samples: Vec<String>,
}

/// The import state of one module, by view.
pub struct ImportView {
    pub import_all_public: bool,
    pub words: Set<Seq<char>>,
    pub samples: Set<Seq<char>>,
}

pub open spec fn names_set(s: Seq<String>) -> Set<Seq<char>> {
    s.map_values(|x: String| x@).to_set()
}

impl ImportedModule {
    pub open spec fn view_of(&self) -> ImportView {
        ImportView {
            import_all_public: self.import_all_public,
            words: names_set(self.imported_words@),
            samples: names_set(self.imported_samples@),
        }
    }

    /// Whether word `name` is imported.
    pub fn has_word(&self, name: &str) -> (r: bool)
        ensures
            r == self.view_of().words.contains(name@),
    {
        contains_name(&self.imported_words, name)
    }

    /// Whether sample word `name` is imported.
    pub fn has_sample(&self, name: &str) -> (r: bool)
        ensures
            r == self.view_of().samples.contains(name@),
    {
        contains_name(&self.imported_samples, name)
    }
}

/// Whether `names` holds `name`.
pub fn contains_name(names: &Vec<String>, name: &str) -> (r: bool)
    ensures
        r == names_set(names@).contains(name@),
{
    let mut i: usize = 0;
    while i < names.len()
        invariant
            0 <= i <= names@.len(),
            forall|j: int| 0 <= j < i ==> (#[trigger] names@[j])@ != name@,
        decreases names@.len() - i,
    {
        if str_equal(names[i].as_str(), name) {
            proof {
                assert(names@.map_values(|x: String| x@)[i as int] == name@);
            }
            return true;
        }
        i = i + 1;
    }
    proof {
        let vs = names@.map_values(|x: String| x@);
        if names_set(names@).contains(name@) {
            let k = choose|k: int| 0 <= k < vs.len() && #[trigger] vs[k] == name@;
            assert(names@[k]@ == name@);
        }
    }
    false
}

/// `names` with `name` added unless it is already there.
pub fn insert_name(names: &mut Vec<String>, name: String)
    ensures
        names_set(final(names)@) == names_set(old(names)@).insert(name@),
{
    if !contains_name(names, name.as_str()) {
        let ghost before = names@;
        names.push(name);
        proof {
            assert(names@.map_values(|x: String| x@) =~= before.map_values(|x: String| x@).push(
                name@,
            ));
            before.map_values(|x: String| x@).lemma_push_to_set_commute(name@);
        }
    } else {
        proof {
            assert(names_set(names@).insert(name@) =~= names_set(names@));
        }
    }
}

/// One row of the import table.
pub struct ImportEntry {
    pub name: String,
    pub module: ImportedModule,
}

/// The import table. A later row for a name stands over an earlier one.
pub struct ImportTable {
    pub entries: Vec<ImportEntry>,
}

/// The modules imported, and their state, by view.
pub open spec fn table_map(entries: Seq<ImportEntry>) -> Map<Seq<char>, ImportView>
    decreases entries.len(),
{
    if entries.len() == 0 {
        Map::empty()
    } else {
        table_map(entries.drop_last()).insert(entries.last().name@, entries.last().module.view_of())
    }
}

impl ImportTable {
    pub open spec fn view(&self) -> Map<Seq<char>, ImportView> {
        table_map(self.entries@)
    }

    pub fn new() -> (r: ImportTable)
        ensures
            r.view() == Map::<Seq<char>, ImportView>::empty(),
    {
        ImportTable { entries: Vec::new() }
    }

    /// The last row holding `name`.
    fn last_index(&self, name: &str) -> (r: Option<usize>)
        ensures
            match r {
                Some(i) => i < self.entries@.len() && self.entries@[i as int].name@ == name@
                    && forall|k: int| i < k < self.entries@.len() ==> (#[trigger] self.entries@[k]).name@ != name@,
                None => forall|k: int| 0 <= k < self.entries@.len() ==> (#[trigger] self.entries@[k]).name@ != name@,
            },
    {
        let mut i: usize = self.entries.len();
        while i > 0
            invariant
                i <= self.entries@.len(),
                forall|k: int| i <= k < self.entries@.len() ==> (#[trigger] self.entries@[k]).name@ != name@,
            decreases i,
        {
            if str_equal(self.entries[i - 1].name.as_str(), name) {
                return Some(i - 1);
            }
            i = i - 1;
        }
        None
    }

    /// The import state of module `name`.
    pub fn get(&self, name: &str) -> (r: Option<&ImportedModule>)
        ensures
            match r {
                Some(m) => self.view().contains_key(name@) && self.view()[name@] == m.view_of(),
                None => !self.view().contains_key(name@),
            },
    {
        match self.last_index(name) {
            Some(i) => {
                proof {
                    lemma_table_last(self.entries@, name@, i as int);
                }
                Some(&self.entries[i].module)
            },
            None => {
                proof {
                    lemma_table_absent(self.entries@, name@);
                }
                None
            },
        }
    }

    /// Set the import state of module `name`.
    pub fn set(&mut self, name: &str, module: ImportedModule)
        ensures
            final(self).view() == old(self).view().insert(name@, module.view_of()),
    {
        let row = ImportEntry { name: String::from_str(name), module };
        match self.last_index(name) {
            Some(i) => {
                proof {
                    lemma_table_update(self.entries@, name@, i as int, row);
                }
                self.entries.set(i, row);
            },
            None => {
                let ghost e0 = self.entries@;
                self.entries.push(row);
                proof {
                    assert(self.entries@.drop_last() =~= e0);
                }
            },
        }
    }

    /// Forget module `name`.
    pub fn remove(&mut self, name: &str)
        ensures
            final(self).view() == old(self).view().remove(name@),
        decreases old(self).entries@.len(),
    {
        match self.last_index(name) {
            None => {
                proof {
                    lemma_table_absent(self.entries@, name@);
                    assert(self.view().remove(name@) =~= self.view());
                }
            },
            Some(i) => {
                let ghost e0 = self.entries@;
                self.entries.remove(i);
                proof {
                    lemma_table_remove(e0, name@, i as int);
                }
                self.remove(name);
            },
        }
    }
}

proof fn lemma_table_absent(entries: Seq<ImportEntry>, name: Seq<char>)
    requires
        forall|k: int| 0 <= k < entries.len() ==> (#[trigger] entries[k]).name@ != name,
    ensures
        !table_map(entries).contains_key(name),
    decreases entries.len(),
{
    if entries.len() > 0 {
        lemma_table_absent(entries.drop_last(), name);
    }
}

proof fn lemma_table_last(entries: Seq<ImportEntry>, name: Seq<char>, i: int)
    requires
        0 <= i < entries.len(),
        entries[i].name@ == name,
        forall|k: int| i < k < entries.len() ==> (#[trigger] entries[k]).name@ != name,
    ensures
        table_map(entries).contains_key(name),
        table_map(entries)[name] == entries[i].module.view_of(),
    decreases entries.len(),
{
    if i < entries.len() - 1 {
        lemma_table_last(entries.drop_last(), name, i);
        assert(entries.last() == entries[entries.len() - 1]);
    }
}

proof fn lemma_table_update(entries: Seq<ImportEntry>, name: Seq<char>, i: int, row: ImportEntry)
    requires
        0 <= i < entries.len(),
        entries[i].name@ == name,
        row.name@ == name,
        forall|k: int| i < k < entries.len() ==> (#[trigger] entries[k]).name@ != name,
    ensures
        table_map(entries.update(i, row)) == table_map(entries).insert(name, row.module.view_of()),
    decreases entries.len(),
{
    if i == entries.len() - 1 {
        assert(entries.update(i, row).drop_last() =~= entries.drop_last());
        assert(table_map(entries.update(i, row)) =~= table_map(entries).insert(
            name,
            row.module.view_of(),
        ));
    } else {
        lemma_table_update(entries.drop_last(), name, i, row);
        assert(entries.update(i, row).drop_last() =~= entries.drop_last().update(i, row));
        assert(entries.last() == entries[entries.len() - 1]);
        assert(table_map(entries.update(i, row)) =~= table_map(entries).insert(
            name,
            row.module.view_of(),
        ));
    }
}

proof fn lemma_table_remove(entries: Seq<ImportEntry>, name: Seq<char>, i: int)
    requires
        0 <= i < entries.len(),
        entries[i].name@ == name,
        forall|k: int| i < k < entries.len() ==> (#[trigger] entries[k]).name@ != name,
    ensures
        table_map(entries.remove(i)).remove(name) == table_map(entries).remove(name),
    decreases entries.len(),
{
    if i == entries.len() - 1 {
        assert(entries.remove(i) =~= entries.drop_last());
        assert(table_map(entries).remove(name) =~= table_map(entries.drop_last()).remove(name));
    } else {
        lemma_table_remove(entries.drop_last(), name, i);
        let er = entries.remove(i);
        assert(er.drop_last() =~= entries.drop_last().remove(i));
        assert(er.last() == entries.last());
        assert(entries.last() == entries[entries.len() - 1]);
        assert(entries[entries.len() - 1].name@ != name);
        let inner = table_map(entries.drop_last().remove(i));
        let t0 = table_map(entries.drop_last());
        let k = entries.last().name@;
        let v = entries.last().module.view_of();
        assert(table_map(er) == table_map(er.drop_last()).insert(er.last().name@, er.last().module.view_of()));
        assert(table_map(er.drop_last()) == inner);
        assert(inner.remove(name) == t0.remove(name));
        assert(inner.insert(k, v).remove(name) =~= inner.remove(name).insert(k, v));
        assert(t0.insert(k, v).remove(name) =~= t0.remove(name).insert(k, v));
    }
}

/// A copy of a list of names.
pub fn copy_names(names: &Vec<String>) -> (r: Vec<String>)
    ensures
        r@.map_values(|x: String| x@) == names@.map_values(|x: String| x@),
{
    let mut out: Vec<String> = Vec::new();
    let mut i: usize = 0;
    while i < names.len()
        invariant
            0 <= i <= names@.len(),
            out@.len() == i,
            forall|j: int| 0 <= j < i ==> (#[trigger] out@[j])@ == names@[j]@,
        decreases names@.len() - i,
    {
        out.push(copy_string(&names[i]));
        i = i + 1;
    }
    proof {
        assert(out@.map_values(|x: String| x@) =~= names@.map_values(|x: String| x@));
    }
    out
}

} // verus!
