//! The module words and the helpers around the import table: `IMPORT`,
//! `IMPORT-ONLY`, restoring a saved import state, and the detail text of a
//! module word.
use crate::error::AjisaiError;
use crate::imports::{insert_name, names_set, ImportView, ImportedModule};
use crate::interpreter::Interpreter;
use crate::modules::{entry_names, lookup_word, module_categories, module_index, module_pos, module_word_entries, module_word_table, qualified_entry, split_at_sign, split_qualified, ModuleWordEntry};
use crate::text::{spec_to_uppercase, to_uppercase};
use crate::value::{domain_of, DataView, Value, ValueData, ValueView};
use vstd::prelude::*;

verus! {

// ── Detail text ──────────────────────────────────────────────────────────────
/// `s` without the run of `c` it ends with.
pub open spec fn trim_trailing(s: Seq<char>, c: char) -> Seq<char>
    decreases s.len(),
{
    if s.len() > 0 && s.last() == c {
        trim_trailing(s.drop_last(), c)
    } else {
        s
    }
}

/// `s` without the full stops it ends with.
pub fn trim_trailing_dots(s: &str) -> (r: &str)
    ensures
        r@ == trim_trailing(s@, '.'),
{
    let mut k = s.unicode_len();
    proof {
        assert(s@.subrange(0, k as int) =~= s@);
    }
    while k > 0 && s.get_char(k - 1) == '.'
        invariant
            k <= s@.len(),
            trim_trailing(s@.subrange(0, k as int), '.') == trim_trailing(s@, '.'),
        decreases k,
    {
        proof {
            assert(s@.subrange(0, k as int).drop_last() =~= s@.subrange(0, k - 1));
        }
        k = k - 1;
    }
    s.substring_char(0, k)
}

/// The detail text of a module word: its qualified name, stability,
/// category, summary, role and stack effect, one per line.
pub open spec fn detail_text(module: Seq<char>, category: Seq<char>, e: ModuleWordEntry) -> Seq<char> {
    module + "@"@ + e.short_name@ + "\nStability: "@ + (if e.stable {
        "stable"@
    } else {
        "experimental"@
    }) + "\nCategory: "@ + category + "\nSummary: "@ + e.description@ + "\nRole: "@ + module
        + " module word: "@ + trim_trailing(e.description@, '.') + "\nStack Effect: not yet documented"@
}

/// The detail text of the module word a qualified name of any letter case
/// names, or `None` when it names none.
pub fn lookup_module_word_detail(name: &str) -> (r: Option<String>)
    ensures
        r is Some <==> qualified_entry(name@) is Some,
        r matches Some(t) ==> ({
            let (m, w) = split_qualified(spec_to_uppercase(name@)).unwrap();
            let pos = module_pos(m);
            t@ == detail_text(m, module_categories()[pos]@, qualified_entry(name@).unwrap())
        }),
{
    let upper = to_uppercase(name);
    let (m, w) = match split_at_sign(upper.as_str()) {
        None => return None,
        Some(parts) => parts,
    };
    let pos = match module_index(m.as_str()) {
        None => return None,
        Some(p) => p,
    };
    let e = match lookup_word(m.as_str(), w.as_str()) {
        None => return None,
        Some(e) => e,
    };
    let cats = crate::modules::categories();
    let category = cats[pos];
    let mut t = String::from_str(m.as_str());
    t.append("@");
    t.append(e.short_name);
    t.append("\nStability: ");
    if e.stable {
        t.append("stable");
    } else {
        t.append("experimental");
    }
    t.append("\nCategory: ");
    t.append(category);
    t.append("\nSummary: ");
    t.append(e.description);
    t.append("\nRole: ");
    t.append(m.as_str());
    t.append(" module word: ");
    t.append(trim_trailing_dots(e.description));
    t.append("\nStack Effect: not yet documented");
    Some(t)
}

// ── Import table updates ─────────────────────────────────────────────────────
/// The names of the words of module `m`, as a set.
pub open spec fn module_word_names(m: int) -> Set<Seq<char>> {
    entry_names(module_word_table(m)).map_values(|s: &'static str| s@).to_set()
}

/// The state a full import of module `m` leaves.
pub open spec fn full_import(m: int) -> ImportView {
    ImportView { import_all_public: true, words: module_word_names(m), samples: Set::empty() }
}

/// The names of the words of module `m`, as strings.
pub(crate) fn word_name_strings(m: usize) -> (r: Vec<String>)
    requires
        m < 8,
    ensures
        names_set(r@) == module_word_names(m as int),
{
    let entries = module_word_entries(m);
    let mut out: Vec<String> = Vec::new();
    let mut i: usize = 0;
    while i < entries.len()
        invariant
            0 <= i <= entries@.len(),
            entries@ == module_word_table(m as int),
            out@.len() == i,
            forall|j: int| 0 <= j < i ==> (#[trigger] out@[j])@ == entries@[j].short_name@,
        decreases entries@.len() - i,
    {
        out.push(String::from_str(entries[i].short_name));
        i = i + 1;
    }
    proof {
        assert(out@.map_values(|x: String| x@) =~= entry_names(entries@).map_values(
            |s: &'static str| s@,
        ));
    }
    out
}

/// Whether module `module`'s dictionary is loaded.
pub open spec fn loaded(i: &Interpreter, module: Seq<char>) -> bool {
    crate::dictionary::position(crate::dictionary::module_names_of(i.module_vocabulary@), module) >= 0
}

/// The module epoch after loading module `module`'s dictionary if needed.
pub open spec fn epoch_after_load(i: &Interpreter, module: Seq<char>) -> u64 {
    if module_pos(module) >= 0 && !loaded(i, module) {
        crate::interpreter::bumped(i.module_epoch)
    } else {
        i.module_epoch
    }
}

/// Import every public word of module `module` (an exact, upper-case
/// name), loading its dictionary first.
pub fn import_all_public(interp: &mut Interpreter, module: &str) -> (r: Result<(), AjisaiError>)
    ensures
        final(interp).stack == old(interp).stack,
        final(interp).module_epoch == epoch_after_load(old(interp), module@),
        module_pos(module@) < 0 ==> (r matches Err(AjisaiError::UnknownModule(n)) && n@ == module@)
            && final(interp).import_table == old(interp).import_table,
        module_pos(module@) >= 0 ==> r is Ok && final(interp).import_table.view() == old(
            interp,
        ).import_table.view().insert(module@, full_import(module_pos(module@))) && loaded(final(interp), module@),
{
    let loaded_now = crate::vocabulary::ensure_module_dictionary(interp, module);
    proof {
        if module_pos(module@) >= 0 && !loaded(old(interp), module@) {
            let d = interp.module_vocabulary@.last();
            assert(crate::dictionary::module_names_of(interp.module_vocabulary@) =~= crate::dictionary::module_names_of(
                old(interp).module_vocabulary@,
            ).push(module@));
            crate::dictionary::lemma_position(crate::dictionary::module_names_of(old(interp).module_vocabulary@), module@);
            let n = old(interp).module_vocabulary@.len() as int;
            let names = crate::dictionary::module_names_of(interp.module_vocabulary@);
            assert(crate::dictionary::first_at(names, module@, n));
            crate::dictionary::lemma_first_unique(names, module@, n);
        }
    }
    if loaded_now.is_err() {
        return Err(AjisaiError::UnknownModule(String::from_str(module)));
    }
    match module_index(module) {
        None => Err(AjisaiError::UnknownModule(String::from_str(module))),
        Some(m) => {
            let words = word_name_strings(m);
            let entry = ImportedModule {
                import_all_public: true,
                imported_words: words,
                imported_samples: Vec::new(),
            };
            proof {
                assert(names_set(entry.imported_samples@) =~= Set::<Seq<char>>::empty());
            }
            interp.import_table.set(module, entry);
            Ok(())
        },
    }
}

/// The module name a value gives: a string, or a one-element vector of a
/// string.
pub open spec fn module_name_of(v: ValueView) -> Option<Seq<char>> {
    match v.data {
        DataView::Text(s) => Some(s),
        DataView::Vector(items) => if items.len() == 1 {
            match items[0].data {
                DataView::Text(s) => Some(s),
                _ => None,
            }
        } else {
            None
        },
        _ => None,
    }
}

pub(crate) fn module_name_from_value(value: &Value) -> (r: Option<String>)
    ensures
        match module_name_of(value@) {
            Some(n) => r matches Some(s) && s@ == n,
            None => r is None,
        },
{
    match &value.data {
        ValueData::Text(s) => Some(crate::value::copy_string(s)),
        ValueData::Vector(items) => {
            proof {
                crate::value::lemma_values_view((**items)@);
            }
            if items.len() == 1 {
                match &items[0].data {
                    ValueData::Text(s) => Some(crate::value::copy_string(s)),
                    _ => None,
                }
            } else {
                None
            }
        },
        _ => None,
    }
}

/// `IMPORT ( name -> )`: import every public word of the named module, in
/// any letter case. The name is a string or a one-element vector of one.
pub fn op_import(interp: &mut Interpreter) -> (r: Result<(), AjisaiError>)
    ensures
        old(interp).stack@.len() == 0 ==> (r matches Err(AjisaiError::StackUnderflow))
            && final(interp).stack == old(interp).stack && final(interp).import_table == old(
            interp,
        ).import_table,
        old(interp).stack@.len() > 0 ==> {
            let top = old(interp).stack@.last()@;
            &&& final(interp).stack@ == crate::interpreter::base_after(old(interp), 1)
            &&& match module_name_of(top) {
                None => r matches Err(AjisaiError::UnknownModule(u)) && u@ == domain_of(top.data)@
                    && final(interp).import_table == old(interp).import_table,
                Some(n) => {
                    let upper = spec_to_uppercase(n);
                    if module_pos(upper) < 0 {
                        r matches Err(AjisaiError::UnknownModule(u)) && u@ == upper
                            && final(interp).import_table == old(interp).import_table
                    } else {
                        r is Ok && final(interp).import_table.view() == old(
                            interp,
                        ).import_table.view().insert(upper, full_import(module_pos(upper)))
                            && final(interp).module_epoch == crate::interpreter::bumped(
                            epoch_after_load(old(interp), upper),
                        ) && loaded(final(interp), upper)
                    }
                },
            }
        },
{
    let value = crate::interpreter::take_operand(interp)?;
    proof {
        assert(interp.stack@ =~= crate::interpreter::base_after(old(interp), 1));
    }
    let name = match module_name_from_value(&value) {
        Some(n) => n,
        None => return Err(AjisaiError::UnknownModule(String::from_str(value.domain_name()))),
    };
    let upper = to_uppercase(name.as_str());
    import_all_public(interp, upper.as_str())?;
    interp.bump_module_epoch();
    let ghost before = *interp;
    let _ = interp.rebuild_dependencies();
    proof {
        assert(interp.module_vocabulary@.len() == before.module_vocabulary@.len());
        assert(crate::dictionary::module_names_of(interp.module_vocabulary@) =~= crate::dictionary::module_names_of(
            before.module_vocabulary@,
        ));
    }
    Ok(())
}

/// Restore a full import of module `module_name`, in any letter case;
/// `false` for an unknown module.
pub fn restore_module(interp: &mut Interpreter, module_name: &str) -> (r: bool)
    ensures
        final(interp).stack == old(interp).stack,
        r == (module_pos(spec_to_uppercase(module_name@)) >= 0),
        r ==> final(interp).import_table.view() == old(interp).import_table.view().insert(
            spec_to_uppercase(module_name@),
            full_import(module_pos(spec_to_uppercase(module_name@))),
        ),
        r ==> loaded(final(interp), spec_to_uppercase(module_name@)),
        final(interp).module_epoch == epoch_after_load(old(interp), spec_to_uppercase(module_name@)),
        !r ==> final(interp).import_table == old(interp).import_table,
{
    let upper = to_uppercase(module_name);
    import_all_public(interp, upper.as_str()).is_ok()
}

/// The upper-case forms of `names`, as a set.
pub open spec fn upper_set(names: Seq<String>) -> Set<Seq<char>> {
    names.map_values(|x: String| spec_to_uppercase(x@)).to_set()
}

fn uppercase_names(names: &Vec<String>) -> (r: Vec<String>)
    ensures
        names_set(r@) == upper_set(names@),
{
    let mut out: Vec<String> = Vec::new();
    let mut i: usize = 0;
    while i < names.len()
        invariant
            0 <= i <= names@.len(),
            out@.len() == i,
            forall|j: int| 0 <= j < i ==> (#[trigger] out@[j])@ == spec_to_uppercase(names@[j]@),
        decreases names@.len() - i,
    {
        out.push(to_uppercase(names[i].as_str()));
        i = i + 1;
    }
    proof {
        assert(out@.map_values(|x: String| x@) =~= names@.map_values(
            |x: String| spec_to_uppercase(x@),
        ));
    }
    out
}

/// Restore a saved import state of one module: the module name and the
/// selected words and sample words in any letter case, upper-cased.
/// `false`, with nothing changed, for an unknown module.
pub fn restore_import_entry(
    interp: &mut Interpreter,
    module_name: &str,
    import_all_public: bool,
    words: Vec<String>,
    samples: Vec<String>,
) -> (r: bool)
    ensures
        final(interp).stack == old(interp).stack,
        r == (module_pos(spec_to_uppercase(module_name@)) >= 0),
        !r ==> final(interp).import_table == old(interp).import_table,
        r ==> final(interp).import_table.view() == old(interp).import_table.view().insert(
            spec_to_uppercase(module_name@),
            ImportView { import_all_public, words: upper_set(words@), samples: upper_set(samples@) },
        ),
{
    let upper = to_uppercase(module_name);
    if module_index(upper.as_str()).is_none() {
        return false;
    }
    let entry = ImportedModule {
        import_all_public,
        imported_words: uppercase_names(&words),
        imported_samples: uppercase_names(&samples),
    };
    interp.import_table.set(upper.as_str(), entry);
    interp.bump_module_epoch();
    true
}

/// The selectors `IMPORT-ONLY` reads: a string, or a vector of strings.
pub open spec fn selectors_of(v: ValueView) -> Option<Seq<Seq<char>>> {
    match v.data {
        DataView::Text(s) => Some(seq![s]),
        DataView::Vector(items) => if forall|i: int| 0 <= i < items.len() ==> (#[trigger] items[i]).data is Text {
            Some(items.map_values(|x: ValueView| x.data->Text_0))
        } else {
            None
        },
        _ => None,
    }
}

/// How operands that are not selectors are reported.
pub open spec fn selector_complaint(v: ValueView) -> Seq<char> {
    if v.data is Vector {
        "IMPORT-ONLY selectors must be strings"@
    } else {
        "IMPORT-ONLY expects a vector of word names"@
    }
}

pub(crate) fn selector_names(value: &Value) -> (r: Result<Vec<String>, AjisaiError>)
    ensures
        match selectors_of(value@) {
            Some(sel) => r matches Ok(v) && v@.map_values(|x: String| x@) == sel,
            None => r matches Err(AjisaiError::Message(m)) && m@ == selector_complaint(value@),
        },
{
    match &value.data {
        ValueData::Text(t) => {
            let mut v: Vec<String> = Vec::new();
            v.push(crate::value::copy_string(t));
            proof {
                assert(v@.map_values(|x: String| x@) =~= seq![t@]);
            }
            Ok(v)
        },
        ValueData::Vector(items) => {
            let elems = crate::value::copy_values(&**items);
            let ghost iv = crate::value::values_view(elems@);
            proof {
                crate::value::lemma_values_view(elems@);
                assert(value@.data == DataView::Vector(iv));
            }
            let mut out: Vec<String> = Vec::new();
            let mut i: usize = 0;
            while i < elems.len()
                invariant
                    0 <= i <= elems@.len(),
                    value@.data == DataView::Vector(iv),
                    iv == crate::value::values_view(elems@),
                    iv.len() == elems@.len(),
                    forall|m: int| 0 <= m < elems@.len() ==> #[trigger] iv[m] == elems@[m]@,
                    out@.len() == i,
                    forall|m: int| 0 <= m < i ==> (#[trigger] iv[m]).data is Text,
                    forall|m: int| 0 <= m < i ==> (#[trigger] out@[m])@ == iv[m].data->Text_0,
                decreases elems@.len() - i,
            {
                match elems[i].as_text() {
                    Some(t) => {
                        proof {
                            assert(iv[i as int] == elems@[i as int]@);
                            assert(elems@[i as int].data is Text);
                            assert(elems@[i as int]@.data is Text);
                            assert(elems@[i as int]@.data->Text_0 == t@);
                        }
                        out.push(String::from_str(t));
                    },
                    None => {
                        proof {
                            assert(iv[i as int] == elems@[i as int]@);
                            assert(!(iv[i as int].data is Text));
                        }
                        return Err(AjisaiError::message("IMPORT-ONLY selectors must be strings"));
                    },
                }
                i = i + 1;
            }
            proof {
                assert(forall|m: int| 0 <= m < iv.len() ==> (#[trigger] iv[m]).data is Text);
                assert(out@.map_values(|x: String| x@) =~= iv.map_values(|x: ValueView| x.data->Text_0));
            }
            Ok(out)
        },
        _ => Err(AjisaiError::message("IMPORT-ONLY expects a vector of word names")),
    }
}

/// The upper-cased module name a value gives.
pub open spec fn upper_name_of(v: ValueView) -> Seq<char> {
    spec_to_uppercase(module_name_of(v).unwrap())
}

/// Selector `j` is the first whose upper-cased form names no word of
/// module `m`.
pub open spec fn first_unknown(m: int, sel: Seq<Seq<char>>, j: int) -> bool {
    &&& 0 <= j < sel.len()
    &&& !module_word_names(m).contains(spec_to_uppercase(sel[j]))
    &&& forall|i: int| 0 <= i < j ==> module_word_names(m).contains(#[trigger] spec_to_uppercase(sel[i]))
}

/// How a selector naming no word of `module` is reported.
pub open spec fn unknown_word_complaint(word: Seq<char>, module: Seq<char>) -> Seq<char> {
    "Unknown module word '"@ + word + "' in "@ + module
}

/// Every upper-cased selector names a word of module `m`.
pub open spec fn all_words_of(m: int, sel: Seq<Seq<char>>) -> bool {
    forall|i: int| 0 <= i < sel.len() ==> module_word_names(m).contains(#[trigger] spec_to_uppercase(sel[i]))
}

/// The module's import state after `IMPORT-ONLY` adds the upper-cased
/// selectors to it.
pub open spec fn with_selected(prior: Option<ImportView>, sel: Seq<Seq<char>>) -> ImportView {
    let base = match prior {
        Some(v) => v,
        None => ImportView { import_all_public: false, words: Set::empty(), samples: Set::empty() },
    };
    ImportView {
        import_all_public: base.import_all_public,
        words: base.words.union(sel.map_values(|s: Seq<char>| spec_to_uppercase(s)).to_set()),
        samples: base.samples,
    }
}

/// `IMPORT-ONLY` only adds: what was imported of the module stays imported
/// (its words, its samples and whether all its public words are), each
/// upper-cased selector becomes imported, and no other word does.
pub proof fn law_import_only_only_adds(prior: Option<ImportView>, sel: Seq<Seq<char>>)
    ensures
        prior matches Some(p) ==> {
            &&& p.words.subset_of(with_selected(prior, sel).words)
            &&& with_selected(prior, sel).samples == p.samples
            &&& with_selected(prior, sel).import_all_public == p.import_all_public
        },
        forall|i: int| 0 <= i < sel.len() ==> with_selected(prior, sel).words.contains(#[trigger] spec_to_uppercase(sel[i])),
        forall|w: Seq<char>| #[trigger] with_selected(prior, sel).words.contains(w) ==> (prior matches Some(p) && p.words.contains(w))
            || exists|i: int| 0 <= i < sel.len() && w == #[trigger] spec_to_uppercase(sel[i]),
{
    let up = sel.map_values(|s: Seq<char>| spec_to_uppercase(s));
    assert forall|i: int| 0 <= i < sel.len() implies with_selected(prior, sel).words.contains(#[trigger] spec_to_uppercase(sel[i])) by {
        assert(up[i] == spec_to_uppercase(sel[i]));
        assert(up.contains(up[i]));
    }
    assert forall|w: Seq<char>| #[trigger] with_selected(prior, sel).words.contains(w) implies (prior matches Some(p) && p.words.contains(w))
        || exists|i: int| 0 <= i < sel.len() && w == #[trigger] spec_to_uppercase(sel[i]) by {
        if up.to_set().contains(w) {
            let i = choose|i: int| 0 <= i < up.len() && up[i] == w;
            assert(w == spec_to_uppercase(sel[i]));
        }
    }
}

/// The upper-cased selectors, when each names a word of module `m`.
pub(crate) fn validate_selectors(m: usize, module: &str, selected: &Vec<String>) -> (r: Result<Vec<String>, AjisaiError>)
    requires
        m < 8,
    ensures
        all_words_of(m as int, selected@.map_values(|x: String| x@)) ==> (r matches Ok(shorts)
            && shorts@.map_values(|x: String| x@) == selected@.map_values(|x: String| x@).map_values(
            |s: Seq<char>| spec_to_uppercase(s),
        )),
        !all_words_of(m as int, selected@.map_values(|x: String| x@)) ==> (r matches Err(
            AjisaiError::Message(msg),
        ) && exists|j: int|
            first_unknown(m as int, selected@.map_values(|x: String| x@), j) && msg@
                == #[trigger] unknown_word_complaint(spec_to_uppercase(selected@[j]@), module@)),
{
    let ghost sel = selected@.map_values(|x: String| x@);
    let names = word_name_strings(m);
    let mut shorts: Vec<String> = Vec::new();
    let mut i: usize = 0;
    while i < selected.len()
        invariant
            0 <= i <= selected@.len(),
            m < 8,
            names_set(names@) == module_word_names(m as int),
            sel == selected@.map_values(|x: String| x@),
            shorts@.len() == i,
            forall|j: int| 0 <= j < i ==> (#[trigger] shorts@[j])@ == spec_to_uppercase(sel[j]),
            forall|j: int| 0 <= j < i ==> module_word_names(m as int).contains(#[trigger] spec_to_uppercase(sel[j])),
        decreases selected@.len() - i,
    {
        let short = to_uppercase(selected[i].as_str());
        proof {
            assert(sel[i as int] == selected@[i as int]@);
        }
        if !crate::imports::contains_name(&names, short.as_str()) {
            proof {
                assert(!all_words_of(m as int, sel));
                assert(first_unknown(m as int, sel, i as int));
            }
            let mut msg = String::from_str("Unknown module word '");
            msg.append(short.as_str());
            msg.append("' in ");
            msg.append(module);
            proof {
                assert(msg@ == unknown_word_complaint(spec_to_uppercase(selected@[i as int]@), module@));
            }
            return Err(AjisaiError::Message(msg));
        }
        shorts.push(short);
        i = i + 1;
    }
    proof {
        assert(shorts@.map_values(|x: String| x@) =~= sel.map_values(|s: Seq<char>| spec_to_uppercase(s)));
    }
    Ok(shorts)
}

/// `IMPORT-ONLY ( name selectors -> )`: import the selected words of the
/// named module, in any letter case. Both operands are taken whatever the
/// consumption mode.
pub fn op_import_only(interp: &mut Interpreter) -> (r: Result<(), AjisaiError>)
    ensures
        old(interp).stack@.len() < 2 ==> (r matches Err(AjisaiError::StackUnderflow))
            && final(interp).stack == old(interp).stack && final(interp).import_table == old(
            interp,
        ).import_table,
        old(interp).stack@.len() >= 2 ==> {
            let len = old(interp).stack@.len();
            let module_value = old(interp).stack@[len - 2]@;
            let selectors = old(interp).stack@[len - 1]@;
            &&& final(interp).stack@ == old(interp).stack@.subrange(0, len - 2)
            &&& r is Ok ==> {
                &&& module_name_of(module_value) is Some
                &&& module_pos(spec_to_uppercase(module_name_of(module_value).unwrap())) >= 0
                &&& selectors_of(selectors) is Some
                &&& all_words_of(
                    module_pos(spec_to_uppercase(module_name_of(module_value).unwrap())),
                    selectors_of(selectors).unwrap(),
                )
                &&& final(interp).import_table.view() == old(interp).import_table.view().insert(
                    spec_to_uppercase(module_name_of(module_value).unwrap()),
                    with_selected(
                        if old(interp).import_table.view().contains_key(spec_to_uppercase(module_name_of(module_value).unwrap())) {
                            Some(old(interp).import_table.view()[spec_to_uppercase(module_name_of(module_value).unwrap())])
                        } else {
                            None
                        },
                        selectors_of(selectors).unwrap(),
                    ),
                )
                &&& old(interp).import_table.view().contains_key(spec_to_uppercase(module_name_of(module_value).unwrap()))
                    ==> old(interp).import_table.view()[spec_to_uppercase(module_name_of(module_value).unwrap())].words.subset_of(
                    final(interp).import_table.view()[spec_to_uppercase(module_name_of(module_value).unwrap())].words,
                )
                &&& forall|i: int|
                    0 <= i < selectors_of(selectors).unwrap().len() ==> final(interp).import_table.view()[spec_to_uppercase(
                        module_name_of(module_value).unwrap(),
                    )].words.contains(#[trigger] spec_to_uppercase(selectors_of(selectors).unwrap()[i]))
            }
            &&& r is Err ==> final(interp).import_table == old(interp).import_table
            &&& (module_name_of(module_value) is None ==> (r matches Err(AjisaiError::UnknownModule(u)) && u@
                == domain_of(module_value.data)@))
            &&& (module_name_of(module_value) is Some && module_pos(upper_name_of(module_value)) < 0
                ==> (r matches Err(AjisaiError::UnknownModule(u)) && u@ == upper_name_of(module_value)))
            &&& (module_name_of(module_value) is Some && module_pos(upper_name_of(module_value)) >= 0
                && selectors_of(selectors) is None ==> (r matches Err(AjisaiError::Message(m)) && m@
                == selector_complaint(selectors)))
            &&& (module_name_of(module_value) is Some && module_pos(upper_name_of(module_value)) >= 0
                && selectors_of(selectors) is Some && !all_words_of(
                module_pos(upper_name_of(module_value)),
                selectors_of(selectors).unwrap(),
            ) ==> (r matches Err(AjisaiError::Message(msg)) && exists|j: int|
                first_unknown(module_pos(upper_name_of(module_value)), selectors_of(selectors).unwrap(), j)
                    && msg@ == #[trigger] unknown_word_complaint(
                    spec_to_uppercase(selectors_of(selectors).unwrap()[j]),
                    upper_name_of(module_value),
                )))
            &&& (module_name_of(module_value) is Some && module_pos(upper_name_of(module_value)) >= 0
                && selectors_of(selectors) is Some && all_words_of(
                module_pos(upper_name_of(module_value)),
                selectors_of(selectors).unwrap(),
            ) ==> r is Ok)
        },
{
    if interp.stack.len() < 2 {
        return Err(AjisaiError::StackUnderflow);
    }
    let ghost s0 = interp.stack@;
    let selectors = interp.stack.pop().unwrap();
    let module_value = interp.stack.pop().unwrap();
    proof {
        assert(interp.stack@ =~= s0.subrange(0, s0.len() - 2));
    }
    let name = match module_name_from_value(&module_value) {
        Some(n) => n,
        None => return Err(AjisaiError::UnknownModule(String::from_str(module_value.domain_name()))),
    };
    let upper = to_uppercase(name.as_str());
    let m = match module_index(upper.as_str()) {
        Some(m) => m,
        None => return Err(AjisaiError::UnknownModule(upper)),
    };
    let _ = crate::vocabulary::ensure_module_dictionary(interp, upper.as_str());
    let selected = selector_names(&selectors)?;
    let ghost sel = selected@.map_values(|x: String| x@);
    let shorts = validate_selectors(m, upper.as_str(), &selected)?;
    let prior = interp.import_table.get(upper.as_str());
    let ghost prior_opt: Option<ImportView> = match prior {
        Some(p) => Some(p.view_of()),
        None => None,
    };
    let mut entry = match prior {
        Some(prior) => ImportedModule {
            import_all_public: prior.import_all_public,
            imported_words: crate::imports::copy_names(&prior.imported_words),
            imported_samples: crate::imports::copy_names(&prior.imported_samples),
        },
        None => ImportedModule {
            import_all_public: false,
            imported_words: Vec::new(),
            imported_samples: Vec::new(),
        },
    };
    proof {
        if prior_opt is None {
            assert(names_set(entry.imported_words@) =~= Set::<Seq<char>>::empty());
            assert(names_set(entry.imported_samples@) =~= Set::<Seq<char>>::empty());
        }
    }
    let ghost base_words = names_set(entry.imported_words@);
    let ghost samples0 = entry.imported_samples@;
    let ghost all0 = entry.import_all_public;
    proof {
        let want0 = with_selected(prior_opt, Seq::empty());
        assert(base_words =~= want0.words);
        assert(names_set(samples0) == want0.samples);
        assert(all0 == want0.import_all_public);
    }
    let mut j: usize = 0;
    while j < shorts.len()
        invariant
            0 <= j <= shorts@.len(),
            names_set(entry.imported_words@) == base_words.union(
                shorts@.take(j as int).map_values(|x: String| x@).to_set(),
            ),
            entry.imported_samples@ == samples0,
            entry.import_all_public == all0,
        decreases shorts@.len() - j,
    {
        let ghost before = names_set(entry.imported_words@);
        insert_name(&mut entry.imported_words, crate::value::copy_string(&shorts[j]));
        proof {
            let tj = shorts@.take(j as int).map_values(|x: String| x@);
            let tj1 = shorts@.take(j + 1).map_values(|x: String| x@);
            assert(tj1 =~= tj.push(shorts@[j as int]@));
            tj.lemma_push_to_set_commute(shorts@[j as int]@);
            assert(names_set(entry.imported_words@) =~= base_words.union(tj1.to_set()));
        }
        j = j + 1;
    }
    proof {
        assert(shorts@.take(j as int).map_values(|x: String| x@) =~= sel.map_values(
            |s: Seq<char>| spec_to_uppercase(s),
        ));
        let want = with_selected(prior_opt, sel);
        assert(names_set(entry.imported_words@) =~= want.words);
        assert(names_set(entry.imported_samples@) =~= want.samples);
        assert(entry.view_of() == want);
        law_import_only_only_adds(prior_opt, sel);
    }
    interp.import_table.set(upper.as_str(), entry);
    interp.bump_module_epoch();
    let _ = interp.rebuild_dependencies();
    Ok(())
}

} // verus!
