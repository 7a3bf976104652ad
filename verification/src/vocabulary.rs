//! Keeping the vocabulary: loading a module's dictionary, the `DEMO` words
//! cache, listing a user dictionary, and the dependency indexes.
use crate::dictionary::{lines_view, position, strings_view, user_names_of, module_names_of, ModuleDictionary, NamedWord, WordDefinition, WordView};
use crate::error::AjisaiError;
use crate::imports::names_set;
use crate::interpreter::{bumped, Interpreter};
use crate::modules::{module_index, module_pos, module_word_entries, module_word_table, ModuleWordEntry};
use crate::resolve::{qualified, qualify};
use crate::text::{spec_to_uppercase, to_uppercase};
use vstd::prelude::*;

verus! {

/// Names and definitions, by view.
pub open spec fn named_views(ws: Seq<NamedWord>) -> Seq<(Seq<char>, WordView)> {
    ws.map_values(|w: NamedWord| (w.name@, w.def@))
}

/// A copy of a list of named definitions.
pub fn copy_named_words(ws: &Vec<NamedWord>) -> (r: Vec<NamedWord>)
    ensures
        named_views(r@) == named_views(ws@),
{
    let mut out: Vec<NamedWord> = Vec::new();
    let mut i: usize = 0;
    while i < ws.len()
        invariant
            0 <= i <= ws@.len(),
            out@.len() == i,
            forall|j: int| 0 <= j < i ==> (#[trigger] out@[j]).name@ == ws@[j].name@ && out@[j].def@ == ws@[j].def@,
        decreases ws@.len() - i,
    {
        out.push(NamedWord { name: crate::value::copy_string(&ws[i].name), def: ws[i].def.copy() });
        i = i + 1;
    }
    proof {
        assert(named_views(out@) =~= named_views(ws@));
    }
    out
}

pub open spec fn demo_name() -> Seq<char> {
    seq!['D', 'E', 'M', 'O']
}

/// Everything but the `DEMO` words cache is the same.
pub open spec fn same_but_user_words(a: &Interpreter, b: &Interpreter) -> bool {
    &&& a.stack == b.stack
    &&& a.consumption_mode == b.consumption_mode
    &&& a.operation_target_mode == b.operation_target_mode
    &&& a.register == b.register
    &&& a.output_buffer == b.output_buffer
    &&& a.dictionary_epoch == b.dictionary_epoch
    &&& a.module_epoch == b.module_epoch
    &&& a.execution_epoch == b.execution_epoch
    &&& a.runtime_metrics == b.runtime_metrics
    &&& a.receipt_recorder == b.receipt_recorder
    &&& a.import_table == b.import_table
    &&& a.granted_capabilities == b.granted_capabilities
    &&& a.max_execution_steps == b.max_execution_steps
    &&& a.execution_step_count == b.execution_step_count
    &&& a.core_vocabulary == b.core_vocabulary
    &&& a.module_vocabulary == b.module_vocabulary
    &&& a.user_dictionaries == b.user_dictionaries
    &&& a.resolve_cache == b.resolve_cache
    &&& a.dependents == b.dependents
    &&& a.dictionary_dependencies == b.dictionary_dependencies
}

/// The words of the `DEMO` user dictionary, none if there is none.
pub open spec fn demo_words(i: &Interpreter) -> Seq<(Seq<char>, WordView)> {
    let p = position(user_names_of(i.user_dictionaries@), demo_name());
    if p >= 0 {
        named_views(i.user_dictionaries@[p].words@)
    } else {
        Seq::empty()
    }
}

/// The user dictionary `name` (any letter case) as a list of its words.
pub open spec fn user_dictionary_listing(i: &Interpreter, name: Seq<char>) -> Seq<(Seq<char>, WordView)> {
    let p = position(user_names_of(i.user_dictionaries@), spec_to_uppercase(name));
    if p >= 0 {
        named_views(i.user_dictionaries@[p].words@)
    } else {
        Seq::empty()
    }
}

/// Word `e` of module `module` as its dictionary holds it: a builtin under
/// its qualified name, with the entry's description.
pub open spec fn builtin_word(module: Seq<char>, e: ModuleWordEntry) -> (Seq<char>, WordView) {
    (
        qualify(module, e.short_name@),
        WordView {
            lines: Seq::empty(),
            is_builtin: true,
            description: Some(e.description@),
            dependencies: Seq::empty(),
            namespace: Some(module),
            registration_order: 0,
        },
    )
}

impl Interpreter {
    /// Refresh the `DEMO` words cache from the `DEMO` user dictionary.
    pub fn sync_user_words_cache(&mut self)
        ensures
            same_but_user_words(final(self), old(self)),
            named_views(final(self).user_words@) == demo_words(old(self)),
    {
        proof {
            reveal_strlit("DEMO");
            assert("DEMO"@ =~= demo_name());
        }
        match crate::dictionary::find_user(&self.user_dictionaries, "DEMO") {
            Some(p) => {
                self.user_words = copy_named_words(&self.user_dictionaries[p].words);
            },
            None => {
                self.user_words = Vec::new();
                proof {
                    assert(named_views(self.user_words@) =~= Seq::<(Seq<char>, WordView)>::empty());
                }
            },
        }
    }

    /// The words of user dictionary `dictionary_name`, in any letter case.
    pub fn user_dictionary_words(&self, dictionary_name: &str) -> (r: Vec<NamedWord>)
        ensures
            named_views(r@) == user_dictionary_listing(self, dictionary_name@),
    {
        let upper = to_uppercase(dictionary_name);
        match crate::dictionary::find_user(&self.user_dictionaries, upper.as_str()) {
            Some(p) => copy_named_words(&self.user_dictionaries[p].words),
            None => {
                let r: Vec<NamedWord> = Vec::new();
                proof {
                    assert(named_views(r@) =~= Seq::<(Seq<char>, WordView)>::empty());
                }
                r
            },
        }
    }
}

/// Load module `module_name`'s dictionary unless it is loaded: its words
/// as builtins under their qualified names, no sample words; the module
/// epoch advances. An unknown module is refused.
pub fn ensure_module_dictionary(interp: &mut Interpreter, module_name: &str) -> (r: Result<(), AjisaiError>)
    ensures
        position(module_names_of(old(interp).module_vocabulary@), module_name@) >= 0 ==> r is Ok
            && *final(interp) == *old(interp),
        position(module_names_of(old(interp).module_vocabulary@), module_name@) < 0 && module_pos(
            module_name@,
        ) < 0 ==> (r matches Err(AjisaiError::UnknownModule(n)) && n@ == module_name@)
            && *final(interp) == *old(interp),
        position(module_names_of(old(interp).module_vocabulary@), module_name@) < 0 && module_pos(
            module_name@,
        ) >= 0 ==> {
            let d = final(interp).module_vocabulary@.last();
            &&& r is Ok
            &&& final(interp).module_vocabulary@.len() == old(interp).module_vocabulary@.len() + 1
            &&& final(interp).module_vocabulary@.drop_last() == old(interp).module_vocabulary@
            &&& d.name@ == module_name@
            &&& named_views(d.words@) == module_word_table(module_pos(module_name@)).map_values(
                |e: ModuleWordEntry| builtin_word(module_name@, e),
            )
            &&& d.sample_words@.len() == 0
            &&& final(interp).module_epoch == bumped(old(interp).module_epoch)
            &&& final(interp).dictionary_epoch == old(interp).dictionary_epoch
            &&& final(interp).stack == old(interp).stack
            &&& final(interp).import_table == old(interp).import_table
            &&& final(interp).core_vocabulary == old(interp).core_vocabulary
            &&& final(interp).user_dictionaries == old(interp).user_dictionaries
            &&& final(interp).resolve_cache == old(interp).resolve_cache
        },
{
    if crate::dictionary::find_module(&interp.module_vocabulary, module_name).is_some() {
        return Ok(());
    }
    let m = match module_index(module_name) {
        None => {
            return Err(AjisaiError::UnknownModule(String::from_str(module_name)));
        },
        Some(m) => m,
    };
    let entries = module_word_entries(m);
    let ghost table = module_word_table(m as int);
    let mut words: Vec<NamedWord> = Vec::new();
    let mut i: usize = 0;
    while i < entries.len()
        invariant
            0 <= i <= entries@.len(),
            entries@ == table,
            words@.len() == i,
            forall|j: int| 0 <= j < i ==> ((#[trigger] words@[j]).name@, words@[j].def@) == builtin_word(
                module_name@,
                table[j],
            ),
        decreases entries@.len() - i,
    {
        let e = entries[i];
        let def = WordDefinition {
            lines: Vec::new(),
            is_builtin: true,
            description: Some(String::from_str(e.description)),
            dependencies: Vec::new(),
            namespace: Some(String::from_str(module_name)),
            registration_order: 0,
        };
        proof {
            assert(lines_view(def.lines@) =~= Seq::<Seq<crate::value::TokenView>>::empty());
            assert(strings_view(def.dependencies@) =~= Seq::<Seq<char>>::empty());
        }
        words.push(NamedWord { name: qualified(module_name, e.short_name), def });
        i = i + 1;
    }
    proof {
        assert(named_views(words@) =~= table.map_values(|e: ModuleWordEntry| builtin_word(module_name@, e)));
    }
    let ghost before = interp.module_vocabulary@;
    interp.module_vocabulary.push(
        ModuleDictionary { name: String::from_str(module_name), words, sample_words: Vec::new() },
    );
    interp.bump_module_epoch();
    proof {
        assert(interp.module_vocabulary@.drop_last() =~= before);
    }
    Ok(())
}

// ── Dependents ───────────────────────────────────────────────────────────────
/// The qualified names of the first `n` words of dictionary `dict` whose
/// dependencies hold `target`.
pub open spec fn words_depending(dict: Seq<char>, ws: Seq<NamedWord>, target: Seq<char>, n: int) -> Seq<Seq<char>>
    decreases n,
{
    if n <= 0 {
        Seq::empty()
    } else {
        let prev = words_depending(dict, ws, target, n - 1);
        if strings_view(ws[n - 1].def.dependencies@).contains(target) {
            prev.push(qualify(dict, ws[n - 1].name@))
        } else {
            prev
        }
    }
}

/// The user words, in the first `n` user dictionaries, that depend on
/// `target`.
pub open spec fn users_depending(us: Seq<crate::dictionary::UserDictionary>, target: Seq<char>, n: int) -> Seq<Seq<char>>
    decreases n,
{
    if n <= 0 {
        Seq::empty()
    } else {
        users_depending(us, target, n - 1) + words_depending(
            us[n - 1].name@,
            us[n - 1].words@,
            target,
            us[n - 1].words@.len() as int,
        )
    }
}

/// The sample words, in the first `n` module dictionaries, that depend on
/// `target`.
pub open spec fn samples_depending(ms: Seq<ModuleDictionary>, target: Seq<char>, n: int) -> Seq<Seq<char>>
    decreases n,
{
    if n <= 0 {
        Seq::empty()
    } else {
        samples_depending(ms, target, n - 1) + words_depending(
            ms[n - 1].name@,
            ms[n - 1].sample_words@,
            target,
            ms[n - 1].sample_words@.len() as int,
        )
    }
}

/// Every user word and sample word whose dependencies hold `target`.
pub open spec fn dependents_of(i: &Interpreter, target: Seq<char>) -> Set<Seq<char>> {
    (users_depending(i.user_dictionaries@, target, i.user_dictionaries@.len() as int) + samples_depending(
        i.module_vocabulary@,
        target,
        i.module_vocabulary@.len() as int,
    )).to_set()
}

/// Add to `out` the words of `ws` (in dictionary `dict`) that depend on
/// `target`.
fn gather_dependents(out: &mut Vec<String>, dict: &str, ws: &Vec<NamedWord>, target: &str, Ghost(acc): Ghost<Seq<Seq<char>>>)
    requires
        names_set(old(out)@) == acc.to_set(),
    ensures
        names_set(final(out)@) == (acc + words_depending(dict@, ws@, target@, ws@.len() as int)).to_set(),
{
    let mut k: usize = 0;
    proof {
        assert(acc + words_depending(dict@, ws@, target@, 0) =~= acc);
    }
    while k < ws.len()
        invariant
            0 <= k <= ws@.len(),
            names_set(out@) == (acc + words_depending(dict@, ws@, target@, k as int)).to_set(),
        decreases ws@.len() - k,
    {
        let ghost before = acc + words_depending(dict@, ws@, target@, k as int);
        if crate::imports::contains_name(&ws[k].def.dependencies, target) {
            let q = qualified(dict, ws[k].name.as_str());
            crate::imports::insert_name(out, q);
            proof {
                assert(acc + words_depending(dict@, ws@, target@, k + 1) =~= before.push(q@));
                before.lemma_push_to_set_commute(q@);
                let dv = strings_view(ws@[k as int].def.dependencies@);
                assert(names_set(ws@[k as int].def.dependencies@) == dv.to_set());
                assert(dv.to_set().contains(target@));
                assert(dv.contains(target@));
            }
        } else {
            proof {
                let dv = strings_view(ws@[k as int].def.dependencies@);
                assert(names_set(ws@[k as int].def.dependencies@) == dv.to_set());
                if dv.contains(target@) {
                    let j = choose|j: int| 0 <= j < dv.len() && dv[j] == target@;
                    assert(dv.to_set().contains(dv[j]));
                }
                assert(acc + words_depending(dict@, ws@, target@, k + 1) =~= before);
            }
        }
        k = k + 1;
    }
}

impl Interpreter {
    /// The qualified names of the user words and sample words whose
    /// dependencies hold `word_name`, each once.
    pub fn collect_dependents(&self, word_name: &str) -> (r: Vec<String>)
        ensures
            names_set(r@) == dependents_of(self, word_name@),
    {
        let mut out: Vec<String> = Vec::new();
        let ghost t = word_name@;
        proof {
            assert(names_set(out@) =~= Seq::<Seq<char>>::empty().to_set());
        }
        let mut a: usize = 0;
        while a < self.user_dictionaries.len()
            invariant
                0 <= a <= self.user_dictionaries@.len(),
                t == word_name@,
                names_set(out@) == users_depending(self.user_dictionaries@, t, a as int).to_set(),
            decreases self.user_dictionaries@.len() - a,
        {
            let d = &self.user_dictionaries[a];
            gather_dependents(&mut out, d.name.as_str(), &d.words, word_name, Ghost(users_depending(self.user_dictionaries@, t, a as int)));
            a = a + 1;
        }
        let ghost users = users_depending(self.user_dictionaries@, t, self.user_dictionaries@.len() as int);
        let mut m: usize = 0;
        proof {
            assert(users + samples_depending(self.module_vocabulary@, t, 0) =~= users);
        }
        while m < self.module_vocabulary.len()
            invariant
                0 <= m <= self.module_vocabulary@.len(),
                t == word_name@,
                users == users_depending(self.user_dictionaries@, t, self.user_dictionaries@.len() as int),
                names_set(out@) == (users + samples_depending(self.module_vocabulary@, t, m as int)).to_set(),
            decreases self.module_vocabulary@.len() - m,
        {
            let md = &self.module_vocabulary[m];
            let ghost acc = users + samples_depending(self.module_vocabulary@, t, m as int);
            gather_dependents(&mut out, md.name.as_str(), &md.sample_words, word_name, Ghost(acc));
            proof {
                assert(users + samples_depending(self.module_vocabulary@, t, m + 1) =~= acc + words_depending(
                    md.name@,
                    md.sample_words@,
                    t,
                    md.sample_words@.len() as int,
                ));
            }
            m = m + 1;
        }
        out
    }
}

} // verus!
