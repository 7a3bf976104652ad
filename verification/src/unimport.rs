//! `UNIMPORT` and `UNIMPORT-ONLY`: hiding a module's words again. A module
//! word that a user word or sample word depends on stays visible: `UNIMPORT`
//! narrows the import to those words, and `UNIMPORT-ONLY` refuses to hide
//! one. The module's dictionary stays loaded.
use crate::error::AjisaiError;
use crate::imports::{contains_name, names_set, ImportView, ImportedModule};
use crate::interpreter::{base_after, bumped, take_operand, Interpreter};
use crate::module_ops::{
    all_words_of, first_unknown, module_name_from_value, module_name_of, module_word_names, selector_complaint,
    selector_names, selectors_of, unknown_word_complaint, validate_selectors, word_name_strings,
};
use crate::modules::{module_index, module_pos};
use crate::resolve::{qualified, qualify, word_imported};
use crate::text::{spec_to_uppercase, str_equal, to_uppercase};
use crate::dictionary::ExecutionLine;
use crate::resolve::{readonly_resolution, vocab, Vocab};
use crate::value::{domain_of, Token};
use vstd::prelude::*;

verus! {

/// Token `t` is a symbol that resolves to `q`.
pub open spec fn token_names(v: Vocab, t: Token, q: Seq<char>) -> bool {
    match t {
        Token::Symbol(s) => readonly_resolution(v, s@) matches Some((n, _)) && n == q,
        _ => false,
    }
}

/// Some symbol of a body resolves to `q`.
pub open spec fn body_refers(v: Vocab, lines: Seq<ExecutionLine>, q: Seq<char>) -> bool {
    exists|l: int, t: int|
        0 <= l < lines.len() && 0 <= t < lines[l].body_tokens@.len() && #[trigger] token_names(
            v,
            lines[l].body_tokens@[t],
            q,
        )
}

/// Word `b` of user dictionary `a` calls `q`.
pub open spec fn referrer_at(i: &Interpreter, a: int, b: int, q: Seq<char>) -> bool {
    &&& 0 <= a < i.user_dictionaries@.len()
    &&& 0 <= b < i.user_dictionaries@[a].words@.len()
    &&& body_refers(vocab(i), i.user_dictionaries@[a].words@[b].def.lines@, q)
}

/// Word `b` of user dictionary `a` is the first, in dictionary order, to
/// call `q`.
pub open spec fn first_referrer(i: &Interpreter, a: int, b: int, q: Seq<char>) -> bool {
    &&& referrer_at(i, a, b, q)
    &&& forall|a2: int, b2: int| 0 <= a2 < a ==> !#[trigger] referrer_at(i, a2, b2, q)
    &&& forall|b2: int| 0 <= b2 < b ==> !#[trigger] referrer_at(i, a, b2, q)
}

/// The qualified name of word `b` of user dictionary `a`.
pub open spec fn referrer_name(i: &Interpreter, a: int, b: int) -> Seq<char> {
    qualify(i.user_dictionaries@[a].name@, i.user_dictionaries@[a].words@[b].name@)
}

/// How a refused `UNIMPORT-ONLY` of `module@word`, called by `caller`, is
/// reported.
pub open spec fn referenced_complaint(module: Seq<char>, word: Seq<char>, caller: Seq<char>) -> Seq<char> {
    "Cannot unimport "@ + module + "@"@ + word + ": referenced by "@ + caller
}

/// Selector `j` is the first whose upper-cased word something calls.
pub open spec fn first_called(i: &Interpreter, module: Seq<char>, sel: Seq<Seq<char>>, j: int) -> bool {
    &&& 0 <= j < sel.len()
    &&& is_referenced(i, module, spec_to_uppercase(sel[j]))
    &&& forall|k: int| 0 <= k < j ==> !#[trigger] is_referenced(i, module, spec_to_uppercase(sel[k]))
}

/// Some user word calls `module@w`.
pub open spec fn is_referenced(i: &Interpreter, module: Seq<char>, w: Seq<char>) -> bool {
    exists|a: int, b: int| #[trigger] referrer_at(i, a, b, qualify(module, w))
}

/// The imported words of module `m` (called `module`) that something
/// depends on.
pub open spec fn kept_words(i: &Interpreter, m: int, module: Seq<char>) -> Set<Seq<char>> {
    module_word_names(m).filter(
        |w: Seq<char>| word_imported(i.import_table.view(), module, w) && is_referenced(i, module, w),
    )
}

/// The import table after `UNIMPORT` of module `m`: an import nothing
/// depends on goes; otherwise only the depended-on words stay imported.
pub open spec fn after_unimport(i: &Interpreter, m: int, module: Seq<char>) -> Map<Seq<char>, ImportView> {
    let t = i.import_table.view();
    if !t.contains_key(module) {
        t
    } else if kept_words(i, m, module) == Set::<Seq<char>>::empty() {
        t.remove(module)
    } else {
        t.insert(module, ImportView { import_all_public: false, words: kept_words(i, m, module), samples: Set::empty() })
    }
}

/// The upper-cased selectors.
pub open spec fn upper_selection(sel: Seq<Seq<char>>) -> Set<Seq<char>> {
    sel.map_values(|s: Seq<char>| spec_to_uppercase(s)).to_set()
}

/// The import table after `UNIMPORT-ONLY` hides `hidden` of module `m`: a
/// full import becomes an explicit one of all the other words.
pub open spec fn after_unimport_only(t: Map<Seq<char>, ImportView>, m: int, module: Seq<char>, hidden: Set<Seq<char>>) -> Map<Seq<char>, ImportView> {
    if !t.contains_key(module) {
        t
    } else {
        let p = t[module];
        let base = if p.import_all_public {
            module_word_names(m)
        } else {
            p.words
        };
        t.insert(module, ImportView { import_all_public: false, words: base.difference(hidden), samples: p.samples })
    }
}

proof fn lemma_referenced_frame(a: &Interpreter, b: &Interpreter)
    requires
        a.user_dictionaries == b.user_dictionaries,
        a.module_vocabulary == b.module_vocabulary,
        a.core_vocabulary == b.core_vocabulary,
        a.import_table == b.import_table,
    ensures
        forall|m: Seq<char>, w: Seq<char>| #[trigger] is_referenced(a, m, w) == is_referenced(b, m, w),
        forall|x: int, y: int, q: Seq<char>| #[trigger] referrer_at(a, x, y, q) == referrer_at(b, x, y, q),
{
    assert(vocab(a) == vocab(b));
    assert forall|m: Seq<char>, w: Seq<char>| #[trigger] is_referenced(a, m, w) == is_referenced(b, m, w) by {
        let q = qualify(m, w);
        if is_referenced(a, m, w) {
            let (x, y) = choose|x: int, y: int| #[trigger] referrer_at(a, x, y, q);
            assert(referrer_at(b, x, y, q));
        }
        if is_referenced(b, m, w) {
            let (x, y) = choose|x: int, y: int| #[trigger] referrer_at(b, x, y, q);
            assert(referrer_at(a, x, y, q));
        }
    }
}

proof fn lemma_nonempty_names(v: Seq<String>)
    ensures
        (names_set(v) != Set::<Seq<char>>::empty()) == (v.len() > 0),
{
    if v.len() > 0 {
        let s = v.map_values(|x: String| x@);
        assert(s[0] == v[0]@);
        assert(names_set(v).contains(v[0]@));
    } else {
        assert(names_set(v) =~= Set::<Seq<char>>::empty());
    }
}

impl Interpreter {
    /// Whether some symbol of `lines` resolves to `q`.
    fn body_refers_to(&self, lines: &Vec<ExecutionLine>, q: &str) -> (r: bool)
        ensures
            r == body_refers(vocab(self), lines@, q@),
    {
        let mut l: usize = 0;
        while l < lines.len()
            invariant
                0 <= l <= lines@.len(),
                forall|l2: int, t: int|
                    0 <= l2 < l && 0 <= t < lines@[l2].body_tokens@.len() ==> !#[trigger] token_names(
                        vocab(self),
                        lines@[l2].body_tokens@[t],
                        q@,
                    ),
            decreases lines@.len() - l,
        {
            let tokens = &lines[l].body_tokens;
            let mut t: usize = 0;
            while t < tokens.len()
                invariant
                    0 <= t <= tokens@.len(),
                    l < lines@.len(),
                    tokens@ == lines@[l as int].body_tokens@,
                    forall|l2: int, t2: int|
                        0 <= l2 < l && 0 <= t2 < lines@[l2].body_tokens@.len() ==> !#[trigger] token_names(
                            vocab(self),
                            lines@[l2].body_tokens@[t2],
                            q@,
                        ),
                    forall|t2: int| 0 <= t2 < t ==> !#[trigger] token_names(vocab(self), tokens@[t2], q@),
                decreases tokens@.len() - t,
            {
                if let Token::Symbol(s) = &tokens[t] {
                    if let Some((n, _)) = self.resolve_word_entry_readonly(s.as_str()) {
                        if str_equal(n.as_str(), q) {
                            proof {
                                assert(token_names(vocab(self), lines@[l as int].body_tokens@[t as int], q@));
                            }
                            return true;
                        }
                    }
                }
                t = t + 1;
            }
            proof {
                assert forall|l2: int, t2: int|
                    0 <= l2 < l + 1 && 0 <= t2 < lines@[l2].body_tokens@.len() implies !#[trigger] token_names(
                        vocab(self),
                        lines@[l2].body_tokens@[t2],
                        q@,
                    ) by {
                    if l2 == l {
                        assert(!token_names(vocab(self), tokens@[t2], q@));
                    }
                }
            }
            l = l + 1;
        }
        false
    }

    /// The qualified name of the first user word that calls `module@word`.
    fn find_referrer(&self, module: &str, word: &str) -> (r: Option<String>)
        ensures
            r is Some <==> is_referenced(self, module@, word@),
            r matches Some(c) ==> exists|a: int, b: int|
                first_referrer(self, a, b, qualify(module@, word@)) && c@ == #[trigger] referrer_name(self, a, b),
    {
        let q = qualified(module, word);
        let mut a: usize = 0;
        while a < self.user_dictionaries.len()
            invariant
                0 <= a <= self.user_dictionaries@.len(),
                q@ == qualify(module@, word@),
                forall|a2: int, b: int| 0 <= a2 < a ==> !#[trigger] referrer_at(self, a2, b, q@),
            decreases self.user_dictionaries@.len() - a,
        {
            let d = &self.user_dictionaries[a];
            let mut b: usize = 0;
            while b < d.words.len()
                invariant
                    0 <= b <= d.words@.len(),
                    a < self.user_dictionaries@.len(),
                    *d == self.user_dictionaries@[a as int],
                    q@ == qualify(module@, word@),
                    forall|a2: int, b2: int| 0 <= a2 < a ==> !#[trigger] referrer_at(self, a2, b2, q@),
                    forall|b2: int| 0 <= b2 < b ==> !#[trigger] referrer_at(self, a as int, b2, q@),
                decreases d.words@.len() - b,
            {
                if self.body_refers_to(&d.words[b].def.lines, q.as_str()) {
                    proof {
                        assert(referrer_at(self, a as int, b as int, q@));
                        assert(first_referrer(self, a as int, b as int, q@));
                    }
                    let c = qualified(d.name.as_str(), d.words[b].name.as_str());
                    proof {
                        assert(c@ == referrer_name(self, a as int, b as int));
                    }
                    return Some(c);
                }
                b = b + 1;
            }
            proof {
                assert forall|a2: int, b2: int| 0 <= a2 < a + 1 implies !#[trigger] referrer_at(self, a2, b2, q@) by {
                    if a2 == a && 0 <= b2 < d.words@.len() {
                        assert(!referrer_at(self, a as int, b2, q@));
                    }
                }
            }
            a = a + 1;
        }
        None
    }

    /// The first of `words` that a user word calls, with the caller's name.
    fn first_referenced(&self, module: &str, words: &Vec<String>) -> (r: Option<(usize, String)>)
        ensures
            match r {
                Some((i, c)) => {
                    &&& i < words@.len()
                    &&& is_referenced(self, module@, words@[i as int]@)
                    &&& forall|j: int| 0 <= j < i ==> !#[trigger] is_referenced(self, module@, words@[j]@)
                    &&& exists|a: int, b: int|
                        first_referrer(self, a, b, qualify(module@, words@[i as int]@)) && c@
                            == #[trigger] referrer_name(self, a, b)
                },
                None => forall|j: int| 0 <= j < words@.len() ==> !#[trigger] is_referenced(self, module@, words@[j]@),
            },
    {
        let mut i: usize = 0;
        while i < words.len()
            invariant
                0 <= i <= words@.len(),
                forall|j: int| 0 <= j < i ==> !#[trigger] is_referenced(self, module@, words@[j]@),
            decreases words@.len() - i,
        {
            if let Some(caller) = self.find_referrer(module, words[i].as_str()) {
                return Some((i, caller));
            }
            i = i + 1;
        }
        None
    }

    /// Whether a user word calls `module@word`.
    fn references_word(&self, module: &str, word: &str) -> (r: bool)
        ensures
            r == is_referenced(self, module@, word@),
    {
        self.find_referrer(module, word).is_some()
    }
}

/// `UNIMPORT ( name -> )`: hide module `name` (any letter case) again, but
/// for the imported words something depends on. A module that is not
/// imported is left as it is.
pub fn op_unimport(interp: &mut Interpreter) -> (r: Result<(), AjisaiError>)
    ensures
        old(interp).stack@.len() == 0 ==> (r matches Err(AjisaiError::StackUnderflow))
            && final(interp).stack == old(interp).stack && final(interp).import_table == old(interp).import_table,
        old(interp).stack@.len() > 0 ==> {
            let top = old(interp).stack@.last()@;
            &&& final(interp).stack@ == base_after(old(interp), 1)
            &&& match module_name_of(top) {
                None => r matches Err(AjisaiError::UnknownModule(u)) && u@ == domain_of(top.data)@
                    && final(interp).import_table == old(interp).import_table,
                Some(n) => {
                    let upper = spec_to_uppercase(n);
                    if module_pos(upper) < 0 {
                        r matches Err(AjisaiError::UnknownModule(u)) && u@ == upper
                            && final(interp).import_table == old(interp).import_table
                    } else {
                        &&& r is Ok
                        &&& final(interp).import_table.view() == after_unimport(old(interp), module_pos(upper), upper)
                        &&& final(interp).module_epoch == if old(interp).import_table.view().contains_key(upper) {
                            bumped(old(interp).module_epoch)
                        } else {
                            old(interp).module_epoch
                        }
                    }
                },
            }
        },
{
    let value = take_operand(interp)?;
    proof {
        assert(interp.stack@ =~= base_after(old(interp), 1));
    }
    let name = match module_name_from_value(&value) {
        Some(n) => n,
        None => return Err(AjisaiError::UnknownModule(String::from_str(value.domain_name()))),
    };
    let upper = to_uppercase(name.as_str());
    let m = match module_index(upper.as_str()) {
        Some(m) => m,
        None => return Err(AjisaiError::UnknownModule(upper)),
    };
    if interp.import_table.get(upper.as_str()).is_none() {
        return Ok(());
    }
    proof {
        lemma_referenced_frame(interp, old(interp));
    }
    let names = word_name_strings(m);
    let ghost pred = |w: Seq<char>| word_imported(interp.import_table.view(), upper@, w) && is_referenced(&*interp, upper@, w);
    let mut kept: Vec<String> = Vec::new();
    let mut i: usize = 0;
    while i < names.len()
        invariant
            0 <= i <= names@.len(),
            names_set(names@) == module_word_names(m as int),
            pred == (|w: Seq<char>| word_imported(interp.import_table.view(), upper@, w) && is_referenced(&*interp, upper@, w)),
            forall|w: Seq<char>| #[trigger] names_set(kept@).contains(w) <==> (exists|j: int| 0 <= j < i && names@[j]@ == w) && pred(w),
        decreases names@.len() - i,
    {
        let w = names[i].as_str();
        if interp.is_module_word_imported(upper.as_str(), w) && interp.references_word(upper.as_str(), w) {
            let ghost before = kept@;
            kept.push(crate::value::copy_string(&names[i]));
            proof {
                assert(kept@.map_values(|x: String| x@) =~= before.map_values(|x: String| x@).push(names@[i as int]@));
                before.map_values(|x: String| x@).lemma_push_to_set_commute(names@[i as int]@);
                assert forall|x: Seq<char>| #[trigger] names_set(kept@).contains(x) <==> (exists|j: int| 0 <= j < i + 1 && names@[j]@ == x) && pred(x) by {
                    if x == names@[i as int]@ {
                    } else if names_set(before).contains(x) {
                        let j = choose|j: int| 0 <= j < i && names@[j]@ == x;
                    } else {
                        if exists|j: int| 0 <= j < i + 1 && names@[j]@ == x {
                            let j = choose|j: int| 0 <= j < i + 1 && names@[j]@ == x;
                            assert(j != i);
                        }
                    }
                }
            }
        } else {
            proof {
                assert forall|x: Seq<char>| #[trigger] names_set(kept@).contains(x) <==> (exists|j: int| 0 <= j < i + 1 && names@[j]@ == x) && pred(x) by {
                    if (exists|j: int| 0 <= j < i + 1 && names@[j]@ == x) && pred(x) {
                        let j = choose|j: int| 0 <= j < i + 1 && names@[j]@ == x;
                        if j == i {
                            assert(!pred(x));
                        }
                    }
                }
            }
        }
        i = i + 1;
    }
    proof {
        let k = kept_words(old(interp), m as int, upper@);
        assert forall|w: Seq<char>| #[trigger] names_set(kept@).contains(w) <==> k.contains(w) by {
            let ns = names@.map_values(|x: String| x@);
            if names_set(kept@).contains(w) {
                let j = choose|j: int| 0 <= j < names@.len() && names@[j]@ == w;
                assert(ns[j] == w);
                assert(names_set(names@).contains(w));
            }
            if k.contains(w) {
                assert(module_word_names(m as int).contains(w));
                assert(names_set(names@).contains(w));
                let j = choose|j: int| 0 <= j < ns.len() && ns[j] == w;
                assert(names@[j]@ == w);
            }
        }
        assert(names_set(kept@) =~= k);
        lemma_nonempty_names(kept@);
    }
    if kept.len() == 0 {
        interp.import_table.remove(upper.as_str());
    } else {
        let entry = ImportedModule { import_all_public: false, imported_words: kept, imported_samples: Vec::new() };
        proof {
            assert(names_set(entry.imported_samples@) =~= Set::<Seq<char>>::empty());
        }
        interp.import_table.set(upper.as_str(), entry);
    }
    interp.bump_module_epoch();
    let _ = interp.rebuild_dependencies();
    Ok(())
}

/// The message `UNIMPORT-ONLY` refuses a called word with.
fn referenced_message(module: &str, word: &str, caller: &str) -> (r: AjisaiError)
    ensures
        r matches AjisaiError::Message(m) && m@ == referenced_complaint(module@, word@, caller@),
{
    let mut msg = String::from_str("Cannot unimport ");
    msg.append(module);
    msg.append("@");
    msg.append(word);
    msg.append(": referenced by ");
    msg.append(caller);
    AjisaiError::Message(msg)
}

/// `UNIMPORT-ONLY ( name selectors -> )`: hide the selected words of module
/// `name` (any letter case). A full import becomes an explicit import of the
/// other words. A selected word something depends on is refused, and then
/// nothing changes; so is a selector naming no word of the module. A module
/// that is not imported is left as it is. Both operands are taken whatever
/// the consumption mode.
pub fn op_unimport_only(interp: &mut Interpreter) -> (r: Result<(), AjisaiError>)
    ensures
        old(interp).stack@.len() < 2 ==> (r matches Err(AjisaiError::StackUnderflow))
            && final(interp).stack == old(interp).stack && final(interp).import_table == old(interp).import_table,
        old(interp).stack@.len() >= 2 ==> {
            let len = old(interp).stack@.len();
            let module_value = old(interp).stack@[len - 2]@;
            let selectors = old(interp).stack@[len - 1]@;
            let upper = spec_to_uppercase(module_name_of(module_value).unwrap());
            let sel = selectors_of(selectors).unwrap();
            &&& final(interp).stack@ == old(interp).stack@.subrange(0, len - 2)
            &&& r is Err ==> final(interp).import_table == old(interp).import_table
            &&& (module_name_of(module_value) is None ==> (r matches Err(AjisaiError::UnknownModule(u)) && u@
                == domain_of(module_value.data)@))
            &&& (module_name_of(module_value) is Some && module_pos(upper) < 0 ==> (r matches Err(
                AjisaiError::UnknownModule(u),
            ) && u@ == upper))
            &&& (module_name_of(module_value) is Some && module_pos(upper) >= 0 && selectors_of(selectors) is None
                ==> (r matches Err(AjisaiError::Message(m)) && m@ == selector_complaint(selectors)))
            &&& (module_name_of(module_value) is Some && module_pos(upper) >= 0 && selectors_of(selectors) is Some
                && !all_words_of(module_pos(upper), sel) ==> (r matches Err(AjisaiError::Message(msg)) && exists|j: int|
                first_unknown(module_pos(upper), sel, j) && msg@ == #[trigger] unknown_word_complaint(
                    spec_to_uppercase(sel[j]),
                    upper,
                )))
            &&& (module_name_of(module_value) is Some && module_pos(upper) >= 0 && selectors_of(selectors) is Some
                && all_words_of(module_pos(upper), sel) ==> {
                if exists|w: Seq<char>| upper_selection(sel).contains(w) && #[trigger] is_referenced(old(interp), upper, w) {
                    r matches Err(AjisaiError::Message(msg)) && exists|j: int, a: int, b: int|
                        first_called(old(interp), upper, sel, j) && first_referrer(
                            old(interp),
                            a,
                            b,
                            qualify(upper, spec_to_uppercase(sel[j])),
                        ) && msg@ == #[trigger] referenced_complaint(
                            upper,
                            spec_to_uppercase(sel[j]),
                            referrer_name(old(interp), a, b),
                        )
                } else {
                    &&& r is Ok
                    &&& final(interp).import_table.view() == after_unimport_only(
                        old(interp).import_table.view(),
                        module_pos(upper),
                        upper,
                        upper_selection(sel),
                    )
                }
            })
        },
{
    if interp.stack.len() < 2 {
        return Err(AjisaiError::StackUnderflow);
    }
    let ghost s0 = interp.stack@;
    let selectors = interp.stack.pop().unwrap();
    let module_value = interp.stack.pop().unwrap();
    proof {
        assert(interp.stack@ =~= s0.subrange(0, s0.len() - 2));
    }
    let name = match module_name_from_value(&module_value) {
        Some(n) => n,
        None => return Err(AjisaiError::UnknownModule(String::from_str(module_value.domain_name()))),
    };
    let upper = to_uppercase(name.as_str());
    let m = match module_index(upper.as_str()) {
        Some(m) => m,
        None => return Err(AjisaiError::UnknownModule(upper)),
    };
    let selected = selector_names(&selectors)?;
    let ghost sel = selected@.map_values(|x: String| x@);
    let shorts = validate_selectors(m, upper.as_str(), &selected)?;
    let ghost hidden = upper_selection(sel);
    proof {
        assert(names_set(shorts@) =~= hidden);
    }
    proof {
        lemma_referenced_frame(interp, old(interp));
    }
    if let Some((w, caller)) = interp.first_referenced(upper.as_str(), &shorts) {
        proof {
            let ns = shorts@.map_values(|x: String| x@);
            assert(ns[w as int] == shorts@[w as int]@);
            assert(hidden.contains(shorts@[w as int]@));
            assert forall|k: int| 0 <= k < w implies !#[trigger] is_referenced(old(interp), upper@, spec_to_uppercase(sel[k])) by {
                assert(ns[k] == shorts@[k]@);
                assert(!is_referenced(&*interp, upper@, shorts@[k]@));
            }
            assert(first_called(old(interp), upper@, sel, w as int));
            let (a, b) = choose|a: int, b: int|
                first_referrer(&*interp, a, b, qualify(upper@, shorts@[w as int]@)) && caller@
                    == #[trigger] referrer_name(&*interp, a, b);
            let q = qualify(upper@, shorts@[w as int]@);
            assert(shorts@.map_values(|x: String| x@)[w as int] == shorts@[w as int]@);
            assert(shorts@[w as int]@ == spec_to_uppercase(sel[w as int]));
            assert(referrer_at(old(interp), a, b, q));
            assert forall|a2: int, b2: int| 0 <= a2 < a implies !#[trigger] referrer_at(old(interp), a2, b2, q) by {
                assert(!referrer_at(&*interp, a2, b2, q));
            }
            assert forall|b2: int| 0 <= b2 < b implies !#[trigger] referrer_at(old(interp), a, b2, q) by {
                assert(!referrer_at(&*interp, a, b2, q));
            }
            assert(first_referrer(old(interp), a, b, qualify(upper@, spec_to_uppercase(sel[w as int]))));
            assert(caller@ == referrer_name(old(interp), a, b));
        }
        return Err(referenced_message(upper.as_str(), shorts[w].as_str(), caller.as_str()));
    }
    proof {
        assert forall|w: Seq<char>| hidden.contains(w) implies !#[trigger] is_referenced(old(interp), upper@, w) by {
            let ns = shorts@.map_values(|x: String| x@);
            let j = choose|j: int| 0 <= j < ns.len() && ns[j] == w;
            assert(shorts@[j]@ == w);
            assert(!is_referenced(&*interp, upper@, shorts@[j]@));
        }
    }
    let prior = match interp.import_table.get(upper.as_str()) {
        None => {
            return Ok(());
        },
        Some(p) => p,
    };
    let base: Vec<String> = if prior.import_all_public {
        word_name_strings(m)
    } else {
        crate::imports::copy_names(&prior.imported_words)
    };
    let samples = crate::imports::copy_names(&prior.imported_samples);
    let ghost base_set = names_set(base@);
    let mut remaining: Vec<String> = Vec::new();
    let mut k: usize = 0;
    while k < base.len()
        invariant
            0 <= k <= base@.len(),
            base_set == names_set(base@),
            names_set(shorts@) == hidden,
            forall|w: Seq<char>| #[trigger] names_set(remaining@).contains(w) <==> (exists|j: int| 0 <= j < k && base@[j]@ == w) && !hidden.contains(w),
        decreases base@.len() - k,
    {
        if !contains_name(&shorts, base[k].as_str()) {
            let ghost before = remaining@;
            remaining.push(crate::value::copy_string(&base[k]));
            proof {
                assert(remaining@.map_values(|x: String| x@) =~= before.map_values(|x: String| x@).push(base@[k as int]@));
                before.map_values(|x: String| x@).lemma_push_to_set_commute(base@[k as int]@);
                assert forall|x: Seq<char>| #[trigger] names_set(remaining@).contains(x) <==> (exists|j: int| 0 <= j < k + 1 && base@[j]@ == x) && !hidden.contains(x) by {
                    if x != base@[k as int]@ && !names_set(before).contains(x) {
                        if exists|j: int| 0 <= j < k + 1 && base@[j]@ == x {
                            let j = choose|j: int| 0 <= j < k + 1 && base@[j]@ == x;
                            assert(j != k);
                        }
                    }
                }
            }
        } else {
            proof {
                assert forall|x: Seq<char>| #[trigger] names_set(remaining@).contains(x) <==> (exists|j: int| 0 <= j < k + 1 && base@[j]@ == x) && !hidden.contains(x) by {
                    if (exists|j: int| 0 <= j < k + 1 && base@[j]@ == x) && !hidden.contains(x) {
                        let j = choose|j: int| 0 <= j < k + 1 && base@[j]@ == x;
                        if j == k {
                            assert(hidden.contains(x));
                        }
                    }
                }
            }
        }
        k = k + 1;
    }
    proof {
        assert forall|w: Seq<char>| #[trigger] names_set(remaining@).contains(w) <==> base_set.difference(hidden).contains(w) by {
            let ns = base@.map_values(|x: String| x@);
            if names_set(remaining@).contains(w) {
                let j = choose|j: int| 0 <= j < base@.len() && base@[j]@ == w;
                assert(ns[j] == w);
            }
            if base_set.difference(hidden).contains(w) {
                let j = choose|j: int| 0 <= j < ns.len() && ns[j] == w;
                assert(base@[j]@ == w);
            }
        }
        assert(names_set(remaining@) =~= base_set.difference(hidden));
    }
    let entry = ImportedModule { import_all_public: false, imported_words: remaining, imported_samples: samples };
    interp.import_table.set(upper.as_str(), entry);
    interp.bump_module_epoch();
    let _ = interp.rebuild_dependencies();
    Ok(())
}

} // verus!
