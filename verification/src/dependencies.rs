//! The dependency indexes: which words call which, and which dictionaries
//! call into which, rebuilt from the bodies of the user words and the
//! sample words.
use crate::dictionary::{lemma_first_unique, lemma_position, first_at, lines_view, position, strings_view, user_names_of, module_names_of, word_names, DependentsEntry, DictionaryDependencyInfo, ExecutionLine, ModuleDictionary, NamedWord, UserDictionary, ResolveCacheEntry, WordDefinition, WordView};
use crate::error::AjisaiError;
use crate::imports::{insert_name, names_set};
use crate::interpreter::Interpreter;
use crate::resolve::{path_parts, qualified, qualify, readonly_resolution, split_qualified_name, vocab, Vocab};
use crate::text::str_equal;
use crate::value::Token;
use crate::vocabulary::{demo_words, dependents_of, named_views, samples_depending, users_depending, words_depending};
use vstd::prelude::*;

verus! {

// ── The word index ───────────────────────────────────────────────────────────
pub open spec fn dependents_keys(d: Seq<DependentsEntry>) -> Seq<Seq<char>> {
    d.map_values(|e: DependentsEntry| e.word@)
}

/// The words recorded as calling `w`.
pub open spec fn dependents_at(d: Seq<DependentsEntry>, w: Seq<char>) -> Set<Seq<char>> {
    let p = position(dependents_keys(d), w);
    if p < 0 {
        Set::empty()
    } else {
        names_set(d[p].dependents@)
    }
}

/// Record that `dependent` calls `word`.
pub fn add_dependent(index: &mut Vec<DependentsEntry>, word: &str, dependent: &str)
    ensures
        forall|w: Seq<char>| #[trigger] dependents_at(final(index)@, w) == if w == word@ {
            dependents_at(old(index)@, w).insert(dependent@)
        } else {
            dependents_at(old(index)@, w)
        },
{
    let ghost d0 = index@;
    let ghost keys = dependents_keys(d0);
    let mut i: usize = 0;
    while i < index.len()
        invariant
            0 <= i <= index@.len(),
            index@ == d0,
            d0 == old(index)@,
            keys == dependents_keys(d0),
            forall|j: int| 0 <= j < i ==> keys[j] != word@,
        decreases index@.len() - i,
    {
        if str_equal(index[i].word.as_str(), word) {
            proof {
                assert(first_at(keys, word@, i as int));
                lemma_first_unique(keys, word@, i as int);
            }
            let mut e = index.remove(i);
            insert_name(&mut e.dependents, String::from_str(dependent));
            index.insert(i, e);
            proof {
                let d1 = index@;
                assert(d1 =~= d0.update(i as int, e));
                assert(dependents_keys(d1) =~= keys);
                assert forall|w: Seq<char>| #[trigger] dependents_at(index@, w) == if w == word@ {
                    dependents_at(d0, w).insert(dependent@)
                } else {
                    dependents_at(d0, w)
                } by {
                    lemma_position(keys, w);
                }
            }
            return;
        }
        i = i + 1;
    }
    let mut fresh: Vec<String> = Vec::new();
    fresh.push(String::from_str(dependent));
    let e = DependentsEntry { word: String::from_str(word), dependents: fresh };
    index.push(e);
    proof {
        let d1 = index@;
        assert(dependents_keys(d1) =~= keys.push(word@));
        assert(fresh@.map_values(|x: String| x@) =~= seq![dependent@]);
        assert(names_set(fresh@) =~= Set::<Seq<char>>::empty().insert(dependent@)) by {
            assert(seq![dependent@].to_set() =~= Set::<Seq<char>>::empty().insert(dependent@)) by {
                assert forall|x: Seq<char>| seq![dependent@].to_set().contains(x) <==> x == dependent@ by {
                    if x == dependent@ {
                        assert(seq![dependent@][0] == x);
                    }
                }
            }
        }
        lemma_position(keys, word@);
        if position(keys, word@) >= 0 {
            assert(keys[position(keys, word@)] == word@);
        }
        assert forall|w: Seq<char>| #[trigger] dependents_at(d1, w) == if w == word@ {
            dependents_at(d0, w).insert(dependent@)
        } else {
            dependents_at(d0, w)
        } by {
            lemma_position_push(keys, word@, w);
            lemma_position(keys, w);
        }
    }
}

proof fn lemma_position_push(names: Seq<Seq<char>>, x: Seq<char>, y: Seq<char>)
    ensures
        position(names.push(x), y) == if position(names, y) >= 0 {
            position(names, y)
        } else if x == y {
            names.len() as int
        } else {
            -1
        },
{
    lemma_position(names, y);
    let t = names.push(x);
    if position(names, y) >= 0 {
        let p = position(names, y);
        assert(first_at(t, y, p));
        lemma_first_unique(t, y, p);
    } else if x == y {
        assert(first_at(t, y, names.len() as int));
        lemma_first_unique(t, y, names.len() as int);
    } else {
        lemma_position(t, y);
        if position(t, y) >= 0 {
            let q = position(t, y);
            assert(t[q] == y);
        }
    }
}

// ── The dictionary index ─────────────────────────────────────────────────────
pub open spec fn dictionary_keys(d: Seq<DictionaryDependencyInfo>) -> Seq<Seq<char>> {
    d.map_values(|e: DictionaryDependencyInfo| e.name@)
}

/// Dictionary `n` has a row.
pub open spec fn has_row(d: Seq<DictionaryDependencyInfo>, n: Seq<char>) -> bool {
    position(dictionary_keys(d), n) >= 0
}

/// The dictionaries `n` calls into.
pub open spec fn depends_on(d: Seq<DictionaryDependencyInfo>, n: Seq<char>) -> Set<Seq<char>> {
    let p = position(dictionary_keys(d), n);
    if p < 0 {
        Set::empty()
    } else {
        names_set(d[p].depends_on@)
    }
}

/// The dictionaries that call into `n`.
pub open spec fn depended_by(d: Seq<DictionaryDependencyInfo>, n: Seq<char>) -> Set<Seq<char>> {
    let p = position(dictionary_keys(d), n);
    if p < 0 {
        Set::empty()
    } else {
        names_set(d[p].depended_by@)
    }
}

/// `a` calls into `b` exactly when `b` is called from `a`.
pub open spec fn mirrored(d: Seq<DictionaryDependencyInfo>) -> bool {
    forall|a: Seq<char>, b: Seq<char>| #[trigger] depends_on(d, a).contains(b) <==> #[trigger] depended_by(d, b).contains(a)
}

fn find_row(d: &Vec<DictionaryDependencyInfo>, name: &str) -> (r: Option<usize>)
    ensures
        match r {
            Some(p) => p as int == position(dictionary_keys(d@), name@) && p < d@.len(),
            None => position(dictionary_keys(d@), name@) == -1,
        },
{
    let ghost keys = dictionary_keys(d@);
    let mut i: usize = 0;
    while i < d.len()
        invariant
            0 <= i <= d@.len(),
            keys == dictionary_keys(d@),
            forall|j: int| 0 <= j < i ==> keys[j] != name@,
        decreases d@.len() - i,
    {
        if str_equal(d[i].name.as_str(), name) {
            proof {
                assert(first_at(keys, name@, i as int));
                lemma_first_unique(keys, name@, i as int);
            }
            return Some(i);
        }
        i = i + 1;
    }
    proof {
        lemma_position(keys, name@);
        if position(keys, name@) >= 0 {
            assert(keys[position(keys, name@)] == name@);
        }
    }
    None
}

/// Give dictionary `name` a row, empty if it had none.
pub fn ensure_row(d: &mut Vec<DictionaryDependencyInfo>, name: &str) -> (p: usize)
    ensures
        p < final(d)@.len(),
        p as int == position(dictionary_keys(final(d)@), name@),
        forall|n: Seq<char>| #[trigger] depends_on(final(d)@, n) == depends_on(old(d)@, n),
        forall|n: Seq<char>| #[trigger] depended_by(final(d)@, n) == depended_by(old(d)@, n),
        forall|n: Seq<char>| has_row(old(d)@, n) ==> #[trigger] has_row(final(d)@, n),
{
    match find_row(d, name) {
        Some(p) => p,
        None => {
            let ghost d0 = d@;
            let ghost keys = dictionary_keys(d0);
            let row = DictionaryDependencyInfo {
                name: String::from_str(name),
                depends_on: Vec::new(),
                depended_by: Vec::new(),
            };
            d.push(row);
            proof {
                assert(dictionary_keys(d@) =~= keys.push(name@));
                assert(names_set(row.depends_on@) =~= Set::<Seq<char>>::empty());
                assert(names_set(row.depended_by@) =~= Set::<Seq<char>>::empty());
                assert forall|n: Seq<char>| #[trigger] depends_on(d@, n) == depends_on(d0, n) by {
                    lemma_position_push(keys, name@, n);
                }
                assert forall|n: Seq<char>| #[trigger] depended_by(d@, n) == depended_by(d0, n) by {
                    lemma_position_push(keys, name@, n);
                }
                assert forall|n: Seq<char>| has_row(d0, n) implies #[trigger] has_row(d@, n) by {
                    lemma_position_push(keys, name@, n);
                }
                lemma_position_push(keys, name@, name@);
            }
            d.len() - 1
        },
    }
}

/// Record that dictionary `from` calls into dictionary `to`.
pub fn link_dictionaries(d: &mut Vec<DictionaryDependencyInfo>, from: &str, to: &str)
    requires
        mirrored(old(d)@),
    ensures
        mirrored(final(d)@),
        has_row(final(d)@, from@),
        has_row(final(d)@, to@),
        depends_on(final(d)@, from@).contains(to@),
        forall|n: Seq<char>| has_row(old(d)@, n) ==> #[trigger] has_row(final(d)@, n),
        forall|a: Seq<char>, b: Seq<char>| #[trigger] depends_on(final(d)@, a).contains(b) <==> (
        depends_on(old(d)@, a).contains(b) || (a == from@ && b == to@)),
{
    let ghost d0 = d@;
    let _ = ensure_row(d, from);
    let ghost da = d@;
    proof {
        assert(has_row(da, from@));
    }
    let _ = ensure_row(d, to);
    let ghost d1 = d@;
    proof {
        assert(has_row(d1, from@));
        assert(has_row(d1, to@));
    }
    let ghost keys = dictionary_keys(d1);
    let p = find_row(d, from).unwrap();
    let mut e = d.remove(p);
    insert_name(&mut e.depends_on, String::from_str(to));
    d.insert(p, e);
    proof {
        assert(d@ =~= d1.update(p as int, e));
        assert(dictionary_keys(d@) =~= keys);
        assert forall|n: Seq<char>| #[trigger] depends_on(d@, n) == if n == from@ {
            depends_on(d1, n).insert(to@)
        } else {
            depends_on(d1, n)
        } by {
            lemma_position(keys, n);
        }
        assert forall|n: Seq<char>| #[trigger] depended_by(d@, n) == depended_by(d1, n) by {
            lemma_position(keys, n);
        }
    }
    let ghost d2 = d@;
    let q = find_row(d, to).unwrap();
    let mut f = d.remove(q);
    insert_name(&mut f.depended_by, String::from_str(from));
    d.insert(q, f);
    proof {
        assert(d@ =~= d2.update(q as int, f));
        assert(dictionary_keys(d@) =~= keys);
        assert forall|n: Seq<char>| #[trigger] depended_by(d@, n) == if n == to@ {
            depended_by(d2, n).insert(from@)
        } else {
            depended_by(d2, n)
        } by {
            lemma_position(keys, n);
        }
        assert forall|n: Seq<char>| #[trigger] depends_on(d@, n) == depends_on(d2, n) by {
            lemma_position(keys, n);
        }
        assert forall|n: Seq<char>| has_row(d1, n) implies #[trigger] has_row(d@, n) by {}
    }
}

// ── Rebuilding ───────────────────────────────────────────────────────────────
/// Two definitions differ at most in their dependencies.
pub open spec fn same_but_dependencies(x: WordDefinition, y: WordDefinition) -> bool {
    &&& x@.lines == y@.lines
    &&& x.is_builtin == y.is_builtin
    &&& x@.description == y@.description
    &&& x@.namespace == y@.namespace
    &&& x.registration_order == y.registration_order
}

/// The same words, in the same order, but for their dependencies.
pub open spec fn words_reshaped(a: Seq<NamedWord>, b: Seq<NamedWord>) -> bool {
    &&& a.len() == b.len()
    &&& forall|i: int| 0 <= i < a.len() ==> (#[trigger] a[i]).name@ == b[i].name@ && same_but_dependencies(a[i].def, b[i].def)
}

pub open spec fn users_reshaped(a: Seq<UserDictionary>, b: Seq<UserDictionary>) -> bool {
    &&& a.len() == b.len()
    &&& forall|i: int| 0 <= i < a.len() ==> (#[trigger] a[i]).name@ == b[i].name@ && words_reshaped(a[i].words@, b[i].words@)
}

pub open spec fn modules_reshaped(a: Seq<ModuleDictionary>, b: Seq<ModuleDictionary>) -> bool {
    &&& a.len() == b.len()
    &&& forall|i: int| 0 <= i < a.len() ==> (#[trigger] a[i]).name@ == b[i].name@ && a[i].words == b[i].words
        && words_reshaped(a[i].sample_words@, b[i].sample_words@)
}

proof fn lemma_words_reshaped_trans(a: Seq<NamedWord>, b: Seq<NamedWord>, c: Seq<NamedWord>)
    requires
        words_reshaped(a, b),
        words_reshaped(b, c),
    ensures
        words_reshaped(a, c),
{
    assert forall|i: int| 0 <= i < a.len() implies (#[trigger] a[i]).name@ == c[i].name@ && same_but_dependencies(a[i].def, c[i].def) by {
        assert(a[i].name@ == b[i].name@);
        assert(b[i].name@ == c[i].name@);
    }
}

proof fn lemma_users_reshaped_trans(a: Seq<UserDictionary>, b: Seq<UserDictionary>, c: Seq<UserDictionary>)
    requires
        users_reshaped(a, b),
        users_reshaped(b, c),
    ensures
        users_reshaped(a, c),
{
    assert forall|i: int| 0 <= i < a.len() implies (#[trigger] a[i]).name@ == c[i].name@ && words_reshaped(a[i].words@, c[i].words@) by {
        assert(a[i].name@ == b[i].name@);
        assert(b[i].name@ == c[i].name@);
        lemma_words_reshaped_trans(a[i].words@, b[i].words@, c[i].words@);
    }
}

proof fn lemma_modules_reshaped_trans(a: Seq<ModuleDictionary>, b: Seq<ModuleDictionary>, c: Seq<ModuleDictionary>)
    requires
        modules_reshaped(a, b),
        modules_reshaped(b, c),
    ensures
        modules_reshaped(a, c),
{
    assert forall|i: int| 0 <= i < a.len() implies (#[trigger] a[i]).name@ == c[i].name@ && a[i].words == c[i].words
        && words_reshaped(a[i].sample_words@, c[i].sample_words@) by {
        assert(a[i].name@ == b[i].name@);
        assert(b[i].name@ == c[i].name@);
        lemma_words_reshaped_trans(a[i].sample_words@, b[i].sample_words@, c[i].sample_words@);
    }
}

/// Every field but the indexes, the cache and the metrics is the same.
pub open spec fn same_frame(a: &Interpreter, b: &Interpreter) -> bool {
    &&& a.stack == b.stack
    &&& a.consumption_mode == b.consumption_mode
    &&& a.operation_target_mode == b.operation_target_mode
    &&& a.register == b.register
    &&& a.output_buffer == b.output_buffer
    &&& a.dictionary_epoch == b.dictionary_epoch
    &&& a.module_epoch == b.module_epoch
    &&& a.execution_epoch == b.execution_epoch
    &&& a.receipt_recorder == b.receipt_recorder
    &&& a.import_table == b.import_table
    &&& a.granted_capabilities == b.granted_capabilities
    &&& a.max_execution_steps == b.max_execution_steps
    &&& a.execution_step_count == b.execution_step_count
    &&& a.core_vocabulary == b.core_vocabulary
}

/// Replace the dependencies of word `short` at position `k` of `ws`.
fn replace_dependencies(ws: &mut Vec<NamedWord>, k: usize, deps: &Vec<String>)
    requires
        k < old(ws)@.len(),
    ensures
        words_reshaped(final(ws)@, old(ws)@),
        forall|i: int| 0 <= i < final(ws)@.len() ==> strings_view((#[trigger] final(ws)@[i]).def.dependencies@) == if i
            == k {
            strings_view(deps@)
        } else {
            strings_view(old(ws)@[i].def.dependencies@)
        },
{
    let ghost w0 = ws@;
    let mut w = ws.remove(k);
    w.def.dependencies = crate::dictionary::copy_strings(deps);
    ws.insert(k, w);
    proof {
        assert(ws@ =~= w0.update(k as int, w));
        assert forall|i: int| 0 <= i < ws@.len() implies (#[trigger] ws@[i]).name@ == w0[i].name@
            && same_but_dependencies(ws@[i].def, w0[i].def) by {}
    }
}

/// The symbols of a token sequence, in order.
pub open spec fn token_symbols(ts: Seq<Token>) -> Seq<Seq<char>>
    decreases ts.len(),
{
    if ts.len() == 0 {
        Seq::empty()
    } else {
        let rest = token_symbols(ts.drop_last());
        match ts.last() {
            Token::Symbol(s) => rest.push(s@),
            _ => rest,
        }
    }
}

/// The symbols of a body, line by line, in order.
pub open spec fn line_symbols(lines: Seq<ExecutionLine>) -> Seq<Seq<char>>
    decreases lines.len(),
{
    if lines.len() == 0 {
        Seq::empty()
    } else {
        line_symbols(lines.drop_last()) + token_symbols(lines.last().body_tokens@)
    }
}

/// The answer names the non-builtin word `n`.
pub open spec fn answers_word(a: Option<(Seq<char>, WordView)>, n: Seq<char>) -> bool {
    a matches Some((m, d)) && m == n && !d.is_builtin
}

/// The names of the non-builtin words among the answers.
pub open spec fn resolved_dependencies(rs: Seq<Option<(Seq<char>, WordView)>>) -> Set<Seq<char>> {
    Set::new(|n: Seq<char>| exists|k: int| 0 <= k < rs.len() && #[trigger] answers_word(rs[k], n))
}

proof fn lemma_resolved_push(rs: Seq<Option<(Seq<char>, WordView)>>, x: Option<(Seq<char>, WordView)>)
    ensures
        resolved_dependencies(rs.push(x)) == match x {
            Some((n, d)) => if !d.is_builtin {
                resolved_dependencies(rs).insert(n)
            } else {
                resolved_dependencies(rs)
            },
            None => resolved_dependencies(rs),
        },
{
    let t = rs.push(x);
    let want = match x {
        Some((n, d)) => if !d.is_builtin {
            resolved_dependencies(rs).insert(n)
        } else {
            resolved_dependencies(rs)
        },
        None => resolved_dependencies(rs),
    };
    assert forall|n: Seq<char>| resolved_dependencies(t).contains(n) == want.contains(n) by {
        if resolved_dependencies(t).contains(n) {
            let k = choose|k: int| 0 <= k < t.len() && #[trigger] answers_word(t[k], n);
            if k < rs.len() {
                assert(answers_word(rs[k], n));
            }
        }
        if resolved_dependencies(rs).contains(n) {
            let k = choose|k: int| 0 <= k < rs.len() && #[trigger] answers_word(rs[k], n);
            assert(answers_word(t[k], n));
        }
        if answers_word(x, n) {
            assert(answers_word(t[rs.len() as int], n));
        }
    }
    assert(resolved_dependencies(t) =~= want);
}

/// What each symbol of a body resolves to in vocabulary `v`.
pub open spec fn body_resolution(v: Vocab, syms: Seq<Seq<char>>) -> Seq<Option<(Seq<char>, WordView)>> {
    syms.map_values(|n: Seq<char>| readonly_resolution(v, n))
}

/// The non-builtin words the symbols of `lines` resolve to in vocabulary `v`.
pub open spec fn body_dependencies_spec(v: Vocab, lines: Seq<ExecutionLine>) -> Set<Seq<char>> {
    resolved_dependencies(body_resolution(v, line_symbols(lines)))
}

/// The dependencies user word `b` of dictionary `a` gets from its body.
pub open spec fn user_word_deps(i: &Interpreter, a: int, b: int) -> Set<Seq<char>> {
    body_dependencies_spec(vocab(i), i.user_dictionaries@[a].words@[b].def.lines@)
}

/// The dependencies sample word `b` of module dictionary `a` gets from its
/// body.
pub open spec fn sample_word_deps(i: &Interpreter, a: int, b: int) -> Set<Seq<char>> {
    body_dependencies_spec(vocab(i), i.module_vocabulary@[a].sample_words@[b].def.lines@)
}

/// Record `word_name` as calling each of `deps`.
fn record_dependents(index: &mut Vec<DependentsEntry>, word_name: &str, deps: &Vec<String>)
    ensures
        forall|x: Seq<char>| #[trigger] dependents_at(final(index)@, x) == if names_set(deps@).contains(x) {
            dependents_at(old(index)@, x).insert(word_name@)
        } else {
            dependents_at(old(index)@, x)
        },
{
    let ghost d0 = old(index)@;
    let mut j: usize = 0;
    proof {
        assert(deps@.take(0).map_values(|x: String| x@).to_set() =~= Set::<Seq<char>>::empty());
    }
    while j < deps.len()
        invariant
            0 <= j <= deps@.len(),
            d0 == old(index)@,
            forall|x: Seq<char>| #[trigger] dependents_at(index@, x) == if names_set(deps@.take(j as int)).contains(x) {
                dependents_at(d0, x).insert(word_name@)
            } else {
                dependents_at(d0, x)
            },
        decreases deps@.len() - j,
    {
        let ghost before = index@;
        add_dependent(index, deps[j].as_str(), word_name);
        proof {
            let t0 = deps@.take(j as int);
            let t1 = deps@.take(j + 1);
            assert(t1 =~= t0.push(deps@[j as int]));
            assert(t1.map_values(|x: String| x@) =~= t0.map_values(|x: String| x@).push(deps@[j as int]@));
            t0.map_values(|x: String| x@).lemma_push_to_set_commute(deps@[j as int]@);
            assert forall|x: Seq<char>| #[trigger] dependents_at(index@, x) == if names_set(t1).contains(x) {
                dependents_at(d0, x).insert(word_name@)
            } else {
                dependents_at(d0, x)
            } by {
                assert(dependents_at(before, x) == if names_set(t0).contains(x) {
                    dependents_at(d0, x).insert(word_name@)
                } else {
                    dependents_at(d0, x)
                });
                if x == deps@[j as int]@ && names_set(t0).contains(x) {
                    assert(dependents_at(d0, x).insert(word_name@).insert(word_name@) =~= dependents_at(d0, x).insert(
                        word_name@,
                    ));
                }
            }
        }
        j = j + 1;
    }
    proof {
        assert(deps@.take(deps@.len() as int) =~= deps@);
    }
}

impl Interpreter {
    /// The qualified names of the non-builtin words the symbols of `lines`
    /// resolve to, each once, without touching the resolve cache.
    fn body_dependencies(&self, lines: &Vec<ExecutionLine>) -> (r: Vec<String>)
        ensures
            names_set(r@) == body_dependencies_spec(vocab(self), lines@),
    {
        let ghost v = vocab(self);
        let mut deps: Vec<String> = Vec::new();
        let mut li: usize = 0;
        proof {
            assert(lines@.take(0) =~= Seq::<ExecutionLine>::empty());
            assert(body_resolution(v, line_symbols(lines@.take(0))) =~= Seq::<Option<(Seq<char>, WordView)>>::empty());
            assert(resolved_dependencies(Seq::<Option<(Seq<char>, WordView)>>::empty()) =~= Set::<Seq<char>>::empty());
            assert(names_set(deps@) =~= Set::<Seq<char>>::empty());
        }
        while li < lines.len()
            invariant
                0 <= li <= lines@.len(),
                v == vocab(self),
                names_set(deps@) == resolved_dependencies(body_resolution(v, line_symbols(lines@.take(li as int)))),
            decreases lines@.len() - li,
        {
            let tokens = &lines[li].body_tokens;
            let ghost done = line_symbols(lines@.take(li as int));
            let mut ti: usize = 0;
            proof {
                assert(tokens@.take(0) =~= Seq::<Token>::empty());
                assert(done + token_symbols(tokens@.take(0)) =~= done);
            }
            while ti < tokens.len()
                invariant
                    0 <= ti <= tokens@.len(),
                    li < lines@.len(),
                    tokens@ == lines@[li as int].body_tokens@,
                    done == line_symbols(lines@.take(li as int)),
                    v == vocab(self),
                    names_set(deps@) == resolved_dependencies(body_resolution(v, done + token_symbols(tokens@.take(ti as int)))),
                decreases tokens@.len() - ti,
            {
                let ghost syms = done + token_symbols(tokens@.take(ti as int));
                proof {
                    assert(tokens@.take(ti + 1).drop_last() =~= tokens@.take(ti as int));
                    assert(tokens@.take(ti + 1).last() == tokens@[ti as int]);
                }
                if let Token::Symbol(s) = &tokens[ti] {
                    proof {
                        assert(done + token_symbols(tokens@.take(ti + 1)) =~= syms.push(s@));
                        assert(body_resolution(v, syms.push(s@)) =~= body_resolution(v, syms).push(readonly_resolution(v, s@)));
                        lemma_resolved_push(body_resolution(v, syms), readonly_resolution(v, s@));
                    }
                    let found = self.resolve_word_entry_readonly(s.as_str());
                    if let Some((rn, rd)) = found {
                        if !rd.is_builtin {
                            insert_name(&mut deps, rn);
                        }
                    }
                } else {
                    proof {
                        assert(done + token_symbols(tokens@.take(ti + 1)) =~= syms);
                    }
                }
                ti = ti + 1;
            }
            proof {
                assert(tokens@.take(tokens@.len() as int) =~= tokens@);
                assert(lines@.take(li + 1).drop_last() =~= lines@.take(li as int));
                assert(lines@.take(li + 1).last() == lines@[li as int]);
            }
            li = li + 1;
        }
        proof {
            assert(lines@.take(lines@.len() as int) =~= lines@);
        }
        deps
    }

    /// The dependencies of every user word, dictionary by dictionary.
    fn user_dependency_lists(&self) -> (r: Vec<Vec<Vec<String>>>)
        ensures
            r@.len() == self.user_dictionaries@.len(),
            forall|a: int| 0 <= a < r@.len() ==> (#[trigger] r@[a])@.len() == self.user_dictionaries@[a].words@.len(),
            forall|a: int, b: int|
                0 <= a < r@.len() && 0 <= b < r@[a]@.len() ==> names_set((#[trigger] r@[a]@[b])@) == user_word_deps(self, a, b),
    {
        let mut out: Vec<Vec<Vec<String>>> = Vec::new();
        let mut a: usize = 0;
        while a < self.user_dictionaries.len()
            invariant
                0 <= a <= self.user_dictionaries@.len(),
                out@.len() == a,
                forall|a2: int| 0 <= a2 < a ==> (#[trigger] out@[a2])@.len() == self.user_dictionaries@[a2].words@.len(),
                forall|a2: int, b2: int|
                    0 <= a2 < a && 0 <= b2 < out@[a2]@.len() ==> names_set((#[trigger] out@[a2]@[b2])@) == user_word_deps(self, a2, b2),
            decreases self.user_dictionaries@.len() - a,
        {
            let mut ds: Vec<Vec<String>> = Vec::new();
            let mut b: usize = 0;
            while b < self.user_dictionaries[a].words.len()
                invariant
                    0 <= a < self.user_dictionaries@.len(),
                    0 <= b <= self.user_dictionaries@[a as int].words@.len(),
                    ds@.len() == b,
                    forall|b2: int| 0 <= b2 < b ==> names_set((#[trigger] ds@[b2])@) == user_word_deps(self, a as int, b2),
                decreases self.user_dictionaries@[a as int].words@.len() - b,
            {
                ds.push(self.body_dependencies(&self.user_dictionaries[a].words[b].def.lines));
                b = b + 1;
            }
            out.push(ds);
            a = a + 1;
        }
        out
    }

    /// The dependencies of every sample word, module by module.
    fn sample_dependency_lists(&self) -> (r: Vec<Vec<Vec<String>>>)
        ensures
            r@.len() == self.module_vocabulary@.len(),
            forall|a: int| 0 <= a < r@.len() ==> (#[trigger] r@[a])@.len() == self.module_vocabulary@[a].sample_words@.len(),
            forall|a: int, b: int|
                0 <= a < r@.len() && 0 <= b < r@[a]@.len() ==> names_set((#[trigger] r@[a]@[b])@) == sample_word_deps(self, a, b),
    {
        let mut out: Vec<Vec<Vec<String>>> = Vec::new();
        let mut a: usize = 0;
        while a < self.module_vocabulary.len()
            invariant
                0 <= a <= self.module_vocabulary@.len(),
                out@.len() == a,
                forall|a2: int| 0 <= a2 < a ==> (#[trigger] out@[a2])@.len() == self.module_vocabulary@[a2].sample_words@.len(),
                forall|a2: int, b2: int|
                    0 <= a2 < a && 0 <= b2 < out@[a2]@.len() ==> names_set((#[trigger] out@[a2]@[b2])@) == sample_word_deps(self, a2, b2),
            decreases self.module_vocabulary@.len() - a,
        {
            let mut ds: Vec<Vec<String>> = Vec::new();
            let mut b: usize = 0;
            while b < self.module_vocabulary[a].sample_words.len()
                invariant
                    0 <= a < self.module_vocabulary@.len(),
                    0 <= b <= self.module_vocabulary@[a as int].sample_words@.len(),
                    ds@.len() == b,
                    forall|b2: int| 0 <= b2 < b ==> names_set((#[trigger] ds@[b2])@) == sample_word_deps(self, a as int, b2),
                decreases self.module_vocabulary@[a as int].sample_words@.len() - b,
            {
                ds.push(self.body_dependencies(&self.module_vocabulary[a].sample_words[b].def.lines));
                b = b + 1;
            }
            out.push(ds);
            a = a + 1;
        }
        out
    }

}

/// The dictionary a qualified name lies in: its second-to-last upper-cased
/// `@` piece.
pub open spec fn dict_of(name: Seq<char>) -> Option<Seq<char>> {
    let p = path_parts(name);
    if p.len() >= 2 {
        Some(p[p.len() - 2])
    } else {
        None
    }
}

/// A word named `name` with dependencies `deps` calls from dictionary `x`
/// into another dictionary `y`.
pub open spec fn calls_into(name: Seq<char>, deps: Seq<Seq<char>>, x: Seq<char>, y: Seq<char>) -> bool {
    dict_of(name) == Some(x) && y != x && exists|k: int| 0 <= k < deps.len() && #[trigger] dict_of(deps[k]) == Some(y)
}

/// Word `b` of user dictionary `a` calls from dictionary `x` into `y`.
pub open spec fn user_link(us: Seq<UserDictionary>, a: int, b: int, x: Seq<char>, y: Seq<char>) -> bool {
    calls_into(qualify(us[a].name@, us[a].words@[b].name@), strings_view(us[a].words@[b].def.dependencies@), x, y)
}

/// Sample word `b` of module dictionary `a` calls from dictionary `x` into
/// `y`.
pub open spec fn sample_link(ms: Seq<ModuleDictionary>, a: int, b: int, x: Seq<char>, y: Seq<char>) -> bool {
    calls_into(qualify(ms[a].name@, ms[a].sample_words@[b].name@), strings_view(ms[a].sample_words@[b].def.dependencies@), x, y)
}

/// User word `(a2, b2)` comes before word `(a, b)` in dictionary order.
pub open spec fn user_before(us: Seq<UserDictionary>, a: int, b: int, a2: int, b2: int) -> bool {
    (0 <= a2 < a && 0 <= b2 < us[a2].words@.len()) || (a2 == a && 0 <= b2 < b)
}

/// Sample word `(a2, b2)` comes before sample word `(a, b)`.
pub open spec fn sample_before(ms: Seq<ModuleDictionary>, a: int, b: int, a2: int, b2: int) -> bool {
    (0 <= a2 < a && 0 <= b2 < ms[a2].sample_words@.len()) || (a2 == a && 0 <= b2 < b)
}

/// The user words before `(a, b)` that call from `x` into `y`.
pub open spec fn users_linked(us: Seq<UserDictionary>, a: int, b: int, x: Seq<char>, y: Seq<char>) -> bool {
    exists|a2: int, b2: int| user_before(us, a, b, a2, b2) && #[trigger] user_link(us, a2, b2, x, y)
}

/// The sample words before `(a, b)` that call from `x` into `y`.
pub open spec fn samples_linked(ms: Seq<ModuleDictionary>, a: int, b: int, x: Seq<char>, y: Seq<char>) -> bool {
    exists|a2: int, b2: int| sample_before(ms, a, b, a2, b2) && #[trigger] sample_link(ms, a2, b2, x, y)
}

/// Some user word or sample word calls from dictionary `x` into `y`.
pub open spec fn words_link(i: &Interpreter, x: Seq<char>, y: Seq<char>) -> bool {
    ||| exists|a: int, b: int|
        0 <= a < i.user_dictionaries@.len() && 0 <= b < i.user_dictionaries@[a].words@.len() && #[trigger] user_link(
            i.user_dictionaries@,
            a,
            b,
            x,
            y,
        )
    ||| exists|a: int, b: int|
        0 <= a < i.module_vocabulary@.len() && 0 <= b < i.module_vocabulary@[a].sample_words@.len() && #[trigger] sample_link(
            i.module_vocabulary@,
            a,
            b,
            x,
            y,
        )
}

proof fn lemma_users_linked_step(
    us0: Seq<UserDictionary>,
    us1: Seq<UserDictionary>,
    a: int,
    b: int,
    name: Seq<char>,
    deps: Seq<Seq<char>>,
)
    requires
        us1.len() == us0.len(),
        0 <= a < us0.len(),
        0 <= b < us0[a].words@.len(),
        forall|a2: int| 0 <= a2 < us0.len() && a2 != a ==> #[trigger] us1[a2] == us0[a2],
        us1[a].name@ == us0[a].name@,
        us1[a].words@.len() == us0[a].words@.len(),
        forall|b2: int|
            0 <= b2 < us0[a].words@.len() && b2 != b ==> (#[trigger] us1[a].words@[b2]).name@ == us0[a].words@[b2].name@
                && strings_view(us1[a].words@[b2].def.dependencies@) == strings_view(us0[a].words@[b2].def.dependencies@),
        name == qualify(us1[a].name@, us1[a].words@[b].name@),
        deps == strings_view(us1[a].words@[b].def.dependencies@),
    ensures
        forall|x: Seq<char>, y: Seq<char>| #[trigger] users_linked(us1, a, b + 1, x, y) <==> (users_linked(us0, a, b, x, y)
            || calls_into(name, deps, x, y)),
{
    assert forall|x: Seq<char>, y: Seq<char>| #[trigger] users_linked(us1, a, b + 1, x, y) <==> (users_linked(us0, a, b, x, y)
        || calls_into(name, deps, x, y)) by {
        if users_linked(us1, a, b + 1, x, y) {
            let (a2, b2) = choose|a2: int, b2: int| user_before(us1, a, b + 1, a2, b2) && #[trigger] user_link(us1, a2, b2, x, y);
            if a2 == a && b2 == b {
                assert(calls_into(name, deps, x, y));
            } else {
                if a2 != a {
                    assert(us1[a2] == us0[a2]);
                }
                assert(user_link(us0, a2, b2, x, y));
                assert(user_before(us0, a, b, a2, b2));
            }
        }
        if users_linked(us0, a, b, x, y) {
            let (a2, b2) = choose|a2: int, b2: int| user_before(us0, a, b, a2, b2) && #[trigger] user_link(us0, a2, b2, x, y);
            if a2 != a {
                assert(us1[a2] == us0[a2]);
            }
            assert(user_link(us1, a2, b2, x, y));
            assert(user_before(us1, a, b + 1, a2, b2));
        }
        if calls_into(name, deps, x, y) {
            assert(user_link(us1, a, b, x, y));
            assert(user_before(us1, a, b + 1, a, b));
        }
    }
}

proof fn lemma_samples_linked_step(
    ms0: Seq<ModuleDictionary>,
    ms1: Seq<ModuleDictionary>,
    a: int,
    b: int,
    name: Seq<char>,
    deps: Seq<Seq<char>>,
)
    requires
        ms1.len() == ms0.len(),
        0 <= a < ms0.len(),
        0 <= b < ms0[a].sample_words@.len(),
        forall|a2: int| 0 <= a2 < ms0.len() && a2 != a ==> #[trigger] ms1[a2] == ms0[a2],
        ms1[a].name@ == ms0[a].name@,
        ms1[a].sample_words@.len() == ms0[a].sample_words@.len(),
        forall|b2: int|
            0 <= b2 < ms0[a].sample_words@.len() && b2 != b ==> (#[trigger] ms1[a].sample_words@[b2]).name@
                == ms0[a].sample_words@[b2].name@ && strings_view(ms1[a].sample_words@[b2].def.dependencies@) == strings_view(
                ms0[a].sample_words@[b2].def.dependencies@,
            ),
        name == qualify(ms1[a].name@, ms1[a].sample_words@[b].name@),
        deps == strings_view(ms1[a].sample_words@[b].def.dependencies@),
    ensures
        forall|x: Seq<char>, y: Seq<char>| #[trigger] samples_linked(ms1, a, b + 1, x, y) <==> (samples_linked(ms0, a, b, x, y)
            || calls_into(name, deps, x, y)),
{
    assert forall|x: Seq<char>, y: Seq<char>| #[trigger] samples_linked(ms1, a, b + 1, x, y) <==> (samples_linked(ms0, a, b, x, y)
        || calls_into(name, deps, x, y)) by {
        if samples_linked(ms1, a, b + 1, x, y) {
            let (a2, b2) = choose|a2: int, b2: int| sample_before(ms1, a, b + 1, a2, b2) && #[trigger] sample_link(ms1, a2, b2, x, y);
            if a2 == a && b2 == b {
                assert(calls_into(name, deps, x, y));
            } else {
                if a2 != a {
                    assert(ms1[a2] == ms0[a2]);
                }
                assert(sample_link(ms0, a2, b2, x, y));
                assert(sample_before(ms0, a, b, a2, b2));
            }
        }
        if samples_linked(ms0, a, b, x, y) {
            let (a2, b2) = choose|a2: int, b2: int| sample_before(ms0, a, b, a2, b2) && #[trigger] sample_link(ms0, a2, b2, x, y);
            if a2 != a {
                assert(ms1[a2] == ms0[a2]);
            }
            assert(sample_link(ms1, a2, b2, x, y));
            assert(sample_before(ms1, a, b + 1, a2, b2));
        }
        if calls_into(name, deps, x, y) {
            assert(sample_link(ms1, a, b, x, y));
            assert(sample_before(ms1, a, b + 1, a, b));
        }
    }
}

/// Finishing dictionary `a` is starting dictionary `a + 1`.
proof fn lemma_users_linked_next(us: Seq<UserDictionary>, a: int)
    requires
        0 <= a < us.len(),
    ensures
        forall|x: Seq<char>, y: Seq<char>| #[trigger] users_linked(us, a + 1, 0, x, y) == users_linked(
            us,
            a,
            us[a].words@.len() as int,
            x,
            y,
        ),
{
    assert forall|x: Seq<char>, y: Seq<char>| #[trigger] users_linked(us, a + 1, 0, x, y) == users_linked(
        us,
        a,
        us[a].words@.len() as int,
        x,
        y,
    ) by {
        if users_linked(us, a + 1, 0, x, y) {
            let (a2, b2) = choose|a2: int, b2: int| user_before(us, a + 1, 0, a2, b2) && #[trigger] user_link(us, a2, b2, x, y);
            assert(user_before(us, a, us[a].words@.len() as int, a2, b2));
        }
        if users_linked(us, a, us[a].words@.len() as int, x, y) {
            let (a2, b2) = choose|a2: int, b2: int| user_before(us, a, us[a].words@.len() as int, a2, b2) && #[trigger] user_link(us, a2, b2, x, y);
            assert(user_before(us, a + 1, 0, a2, b2));
        }
    }
}

proof fn lemma_samples_linked_next(ms: Seq<ModuleDictionary>, a: int)
    requires
        0 <= a < ms.len(),
    ensures
        forall|x: Seq<char>, y: Seq<char>| #[trigger] samples_linked(ms, a + 1, 0, x, y) == samples_linked(
            ms,
            a,
            ms[a].sample_words@.len() as int,
            x,
            y,
        ),
{
    assert forall|x: Seq<char>, y: Seq<char>| #[trigger] samples_linked(ms, a + 1, 0, x, y) == samples_linked(
        ms,
        a,
        ms[a].sample_words@.len() as int,
        x,
        y,
    ) by {
        if samples_linked(ms, a + 1, 0, x, y) {
            let (a2, b2) = choose|a2: int, b2: int| sample_before(ms, a + 1, 0, a2, b2) && #[trigger] sample_link(ms, a2, b2, x, y);
            assert(sample_before(ms, a, ms[a].sample_words@.len() as int, a2, b2));
        }
        if samples_linked(ms, a, ms[a].sample_words@.len() as int, x, y) {
            let (a2, b2) = choose|a2: int, b2: int| sample_before(ms, a, ms[a].sample_words@.len() as int, a2, b2) && #[trigger] sample_link(ms, a2, b2, x, y);
            assert(sample_before(ms, a + 1, 0, a2, b2));
        }
    }
}

/// The words of a dictionary that depend on `target`, unchanged when the
/// first `n` words keep their names and dependencies.
proof fn lemma_words_depending_frame(d: Seq<char>, a: Seq<NamedWord>, b: Seq<NamedWord>, n: int)
    requires
        0 <= n <= a.len(),
        n <= b.len(),
        forall|i: int| 0 <= i < n ==> (#[trigger] a[i]).name@ == b[i].name@ && strings_view(a[i].def.dependencies@)
            == strings_view(b[i].def.dependencies@),
    ensures
        forall|x: Seq<char>| #[trigger] words_depending(d, a, x, n) == words_depending(d, b, x, n),
    decreases n,
{
    if n > 0 {
        lemma_words_depending_frame(d, a, b, n - 1);
        assert forall|x: Seq<char>| #[trigger] words_depending(d, a, x, n) == words_depending(d, b, x, n) by {
            assert(words_depending(d, a, x, n - 1) == words_depending(d, b, x, n - 1));
            assert(a[n - 1].name@ == b[n - 1].name@);
            assert(strings_view(a[n - 1].def.dependencies@) == strings_view(b[n - 1].def.dependencies@));
        }
    } else {
        assert forall|x: Seq<char>| #[trigger] words_depending(d, a, x, n) == words_depending(d, b, x, n) by {}
    }
}

proof fn lemma_users_depending_frame(a: Seq<UserDictionary>, b: Seq<UserDictionary>, n: int)
    requires
        0 <= n <= a.len(),
        n <= b.len(),
        forall|i: int| 0 <= i < n ==> #[trigger] a[i] == b[i],
    ensures
        forall|x: Seq<char>| #[trigger] users_depending(a, x, n) == users_depending(b, x, n),
    decreases n,
{
    if n > 0 {
        lemma_users_depending_frame(a, b, n - 1);
        assert forall|x: Seq<char>| #[trigger] users_depending(a, x, n) == users_depending(b, x, n) by {
            assert(users_depending(a, x, n - 1) == users_depending(b, x, n - 1));
            assert(a[n - 1] == b[n - 1]);
        }
    } else {
        assert forall|x: Seq<char>| #[trigger] users_depending(a, x, n) == users_depending(b, x, n) by {}
    }
}

proof fn lemma_samples_depending_frame(a: Seq<ModuleDictionary>, b: Seq<ModuleDictionary>, n: int)
    requires
        0 <= n <= a.len(),
        n <= b.len(),
        forall|i: int| 0 <= i < n ==> #[trigger] a[i] == b[i],
    ensures
        forall|x: Seq<char>| #[trigger] samples_depending(a, x, n) == samples_depending(b, x, n),
    decreases n,
{
    if n > 0 {
        lemma_samples_depending_frame(a, b, n - 1);
        assert forall|x: Seq<char>| #[trigger] samples_depending(a, x, n) == samples_depending(b, x, n) by {
            assert(samples_depending(a, x, n - 1) == samples_depending(b, x, n - 1));
            assert(a[n - 1] == b[n - 1]);
        }
    } else {
        assert forall|x: Seq<char>| #[trigger] samples_depending(a, x, n) == samples_depending(b, x, n) by {}
    }
}

impl Interpreter {
    /// Link the dictionary of `word_name` to the dictionary of each of
    /// `deps` that lies in another dictionary.
    fn link_calls(&mut self, word_name: &str, deps: &Vec<String>)
        requires
            mirrored(old(self).dictionary_dependencies@),
        ensures
            mirrored(final(self).dictionary_dependencies@),
            *final(self) == (Interpreter { dictionary_dependencies: final(self).dictionary_dependencies, ..*old(self) }),
            forall|x: Seq<char>, y: Seq<char>| #[trigger] depends_on(final(self).dictionary_dependencies@, x).contains(y)
                <==> (depends_on(old(self).dictionary_dependencies@, x).contains(y) || calls_into(
                word_name@,
                strings_view(deps@),
                x,
                y,
            )),
    {
        let ghost d0 = self.dictionary_dependencies@;
        let ghost dv = strings_view(deps@);
        match split_qualified_name(word_name) {
            Some((dict_name, _)) => {
                let mut j: usize = 0;
                while j < deps.len()
                    invariant
                        0 <= j <= deps@.len(),
                        dv == strings_view(deps@),
                        dict_of(word_name@) == Some(dict_name@),
                        mirrored(self.dictionary_dependencies@),
                        *self == (Interpreter { dictionary_dependencies: self.dictionary_dependencies, ..*old(self) }),
                        forall|x: Seq<char>, y: Seq<char>| #[trigger] depends_on(self.dictionary_dependencies@, x).contains(y)
                            <==> (depends_on(d0, x).contains(y) || (x == dict_name@ && y != x && exists|k: int|
                            0 <= k < j && #[trigger] dict_of(dv[k]) == Some(y))),
                    decreases deps@.len() - j,
                {
                    let ghost before = self.dictionary_dependencies@;
                    match split_qualified_name(deps[j].as_str()) {
                        Some((dep_dict, _)) => {
                            proof {
                                assert(dv[j as int] == deps@[j as int]@);
                            }
                            if !str_equal(dep_dict.as_str(), dict_name.as_str()) {
                                link_dictionaries(&mut self.dictionary_dependencies, dict_name.as_str(), dep_dict.as_str());
                            }
                            proof {
                                assert forall|x: Seq<char>, y: Seq<char>| #[trigger] depends_on(self.dictionary_dependencies@, x).contains(y)
                                    <==> (depends_on(d0, x).contains(y) || (x == dict_name@ && y != x && exists|k: int|
                                    0 <= k < j + 1 && #[trigger] dict_of(dv[k]) == Some(y))) by {
                                    if x == dict_name@ && y != x && dict_of(dv[j as int]) == Some(y) {
                                        assert(y == dep_dict@);
                                    }
                                    if x == dict_name@ && y != x && (exists|k: int| 0 <= k < j + 1 && #[trigger] dict_of(dv[k]) == Some(y)) {
                                        let k = choose|k: int| 0 <= k < j + 1 && #[trigger] dict_of(dv[k]) == Some(y);
                                        if k < j {
                                            assert(dict_of(dv[k]) == Some(y));
                                        }
                                    }
                                }
                            }
                        },
                        None => {
                            proof {
                                assert(dv[j as int] == deps@[j as int]@);
                                assert forall|x: Seq<char>, y: Seq<char>| #[trigger] depends_on(self.dictionary_dependencies@, x).contains(y)
                                    <==> (depends_on(d0, x).contains(y) || (x == dict_name@ && y != x && exists|k: int|
                                    0 <= k < j + 1 && #[trigger] dict_of(dv[k]) == Some(y))) by {
                                    if x == dict_name@ && y != x && (exists|k: int| 0 <= k < j + 1 && #[trigger] dict_of(dv[k]) == Some(y)) {
                                        let k = choose|k: int| 0 <= k < j + 1 && #[trigger] dict_of(dv[k]) == Some(y);
                                        assert(k < j);
                                    }
                                }
                            }
                        },
                    }
                    j = j + 1;
                }
            },
            None => {},
        }
    }

    /// Rebuild the dependency indexes from scratch. Every user word and
    /// every sample word gets as dependencies the non-builtin words its
    /// symbols resolve to in the vocabulary as it stands (looked up without
    /// the resolve cache, which stays as it is); the word index records the
    /// inverse; each dictionary gets a row, and a dictionary whose words call
    /// into another's is linked to it both ways. The `DEMO` words cache is
    /// refreshed.
    pub fn rebuild_dependencies(&mut self) -> (r: Result<(), AjisaiError>)
        ensures
            r is Ok,
            same_frame(final(self), old(self)),
            users_reshaped(final(self).user_dictionaries@, old(self).user_dictionaries@),
            modules_reshaped(final(self).module_vocabulary@, old(self).module_vocabulary@),
            forall|i: int| 0 <= i < final(self).user_dictionaries@.len() ==> has_row(
                final(self).dictionary_dependencies@,
                (#[trigger] final(self).user_dictionaries@[i]).name@,
            ),
            forall|i: int| 0 <= i < final(self).module_vocabulary@.len() ==> has_row(
                final(self).dictionary_dependencies@,
                (#[trigger] final(self).module_vocabulary@[i]).name@,
            ),
            mirrored(final(self).dictionary_dependencies@),
            named_views(final(self).user_words@) == demo_words(final(self)),
            forall|x: Seq<char>| #[trigger] dependents_at(final(self).dependents@, x) == dependents_of(final(self), x),
            forall|x: Seq<char>, y: Seq<char>| #[trigger] depends_on(final(self).dictionary_dependencies@, x).contains(y)
                <==> words_link(final(self), x, y),
            forall|a: int, b: int|
                0 <= a < final(self).user_dictionaries@.len() && 0 <= b < final(self).user_dictionaries@[a].words@.len()
                    ==> names_set((#[trigger] final(self).user_dictionaries@[a].words@[b]).def.dependencies@) == user_word_deps(
                    old(self),
                    a,
                    b,
                ),
            forall|a: int, b: int|
                0 <= a < final(self).module_vocabulary@.len() && 0 <= b < final(self).module_vocabulary@[a].sample_words@.len()
                    ==> names_set((#[trigger] final(self).module_vocabulary@[a].sample_words@[b]).def.dependencies@)
                    == sample_word_deps(old(self), a, b),
            final(self).resolve_cache == old(self).resolve_cache,
            final(self).runtime_metrics == old(self).runtime_metrics,
    {
        let user_lists = self.user_dependency_lists();
        let sample_lists = self.sample_dependency_lists();
        self.dependents = Vec::new();
        self.dictionary_dependencies = Vec::new();
        proof {
            assert(mirrored(self.dictionary_dependencies@)) by {
                assert forall|x: Seq<char>, y: Seq<char>| #[trigger] depends_on(self.dictionary_dependencies@, x).contains(y)
                    <==> #[trigger] depended_by(self.dictionary_dependencies@, y).contains(x) by {
                    lemma_position(dictionary_keys(self.dictionary_dependencies@), x);
                    lemma_position(dictionary_keys(self.dictionary_dependencies@), y);
                }
            }
            assert forall|i: int| 0 <= i < old(self).user_dictionaries@.len() implies #[trigger] words_reshaped(
                old(self).user_dictionaries@[i].words@,
                old(self).user_dictionaries@[i].words@,
            ) by {}
            assert forall|i: int| 0 <= i < old(self).module_vocabulary@.len() implies #[trigger] words_reshaped(
                old(self).module_vocabulary@[i].sample_words@,
                old(self).module_vocabulary@[i].sample_words@,
            ) by {}
            assert forall|x: Seq<char>| #[trigger] dependents_at(self.dependents@, x) == users_depending(
                self.user_dictionaries@,
                x,
                0,
            ).to_set() by {
                lemma_position(dependents_keys(self.dependents@), x);
                assert(users_depending(self.user_dictionaries@, x, 0).to_set() =~= Set::<Seq<char>>::empty());
            }
            assert forall|x: Seq<char>, y: Seq<char>| #[trigger] depends_on(self.dictionary_dependencies@, x).contains(y)
                <==> users_linked(self.user_dictionaries@, 0, 0, x, y) by {
                lemma_position(dictionary_keys(self.dictionary_dependencies@), x);
            }
        }
        let nu0 = self.user_dictionaries.len();
        let mut a: usize = 0;
        while a < nu0
            invariant
                0 <= a <= nu0,
                nu0 == self.user_dictionaries@.len(),
                same_frame(self, old(self)),
                self.resolve_cache == old(self).resolve_cache,
                self.runtime_metrics == old(self).runtime_metrics,
                users_reshaped(self.user_dictionaries@, old(self).user_dictionaries@),
                modules_reshaped(self.module_vocabulary@, old(self).module_vocabulary@),
                mirrored(self.dictionary_dependencies@),
                forall|x: Seq<char>| #[trigger] dependents_at(self.dependents@, x) == users_depending(
                    self.user_dictionaries@,
                    x,
                    a as int,
                ).to_set(),
                forall|x: Seq<char>, y: Seq<char>| #[trigger] depends_on(self.dictionary_dependencies@, x).contains(y)
                    <==> users_linked(self.user_dictionaries@, a as int, 0, x, y),
                user_lists@.len() == old(self).user_dictionaries@.len(),
                forall|a2: int| 0 <= a2 < user_lists@.len() ==> (#[trigger] user_lists@[a2])@.len() == old(self).user_dictionaries@[a2].words@.len(),
                forall|a2: int, b2: int|
                    0 <= a2 < user_lists@.len() && 0 <= b2 < user_lists@[a2]@.len() ==> names_set((#[trigger] user_lists@[a2]@[b2])@) == user_word_deps(old(self), a2, b2),
                forall|a2: int, b2: int|
                    user_before(self.user_dictionaries@, a as int, 0, a2, b2) ==> names_set(
                        (#[trigger] self.user_dictionaries@[a2].words@[b2]).def.dependencies@,
                    ) == user_word_deps(old(self), a2, b2),
            decreases nu0 - a,
        {
            let dn = crate::value::copy_string(&self.user_dictionaries[a].name);
            let nw = self.user_dictionaries[a].words.len();
            let mut b: usize = 0;
            proof {
                assert forall|x: Seq<char>| #[trigger] dependents_at(self.dependents@, x) == (users_depending(
                    self.user_dictionaries@,
                    x,
                    a as int,
                ) + words_depending(dn@, self.user_dictionaries@[a as int].words@, x, 0)).to_set() by {
                    assert(users_depending(self.user_dictionaries@, x, a as int) + words_depending(
                        dn@,
                        self.user_dictionaries@[a as int].words@,
                        x,
                        0,
                    ) =~= users_depending(self.user_dictionaries@, x, a as int));
                }
            }
            while b < nw
                invariant
                    0 <= b <= nw,
                    a < nu0,
                    nu0 == self.user_dictionaries@.len(),
                    nw == self.user_dictionaries@[a as int].words@.len(),
                    dn@ == self.user_dictionaries@[a as int].name@,
                    same_frame(self, old(self)),
                self.resolve_cache == old(self).resolve_cache,
                self.runtime_metrics == old(self).runtime_metrics,
                    users_reshaped(self.user_dictionaries@, old(self).user_dictionaries@),
                    modules_reshaped(self.module_vocabulary@, old(self).module_vocabulary@),
                    mirrored(self.dictionary_dependencies@),
                    forall|x: Seq<char>| #[trigger] dependents_at(self.dependents@, x) == (users_depending(
                        self.user_dictionaries@,
                        x,
                        a as int,
                    ) + words_depending(dn@, self.user_dictionaries@[a as int].words@, x, b as int)).to_set(),
                    forall|x: Seq<char>, y: Seq<char>| #[trigger] depends_on(self.dictionary_dependencies@, x).contains(y)
                        <==> users_linked(self.user_dictionaries@, a as int, b as int, x, y),
                    user_lists@.len() == old(self).user_dictionaries@.len(),
                    forall|a2: int| 0 <= a2 < user_lists@.len() ==> (#[trigger] user_lists@[a2])@.len() == old(self).user_dictionaries@[a2].words@.len(),
                    forall|a2: int, b2: int|
                        0 <= a2 < user_lists@.len() && 0 <= b2 < user_lists@[a2]@.len() ==> names_set((#[trigger] user_lists@[a2]@[b2])@) == user_word_deps(old(self), a2, b2),
                    forall|a2: int, b2: int|
                        user_before(self.user_dictionaries@, a as int, b as int, a2, b2) ==> names_set(
                            (#[trigger] self.user_dictionaries@[a2].words@[b2]).def.dependencies@,
                        ) == user_word_deps(old(self), a2, b2),
                decreases nw - b,
            {
                let name = qualified(dn.as_str(), self.user_dictionaries[a].words[b].name.as_str());
                let ghost u0 = self.user_dictionaries@;
                let ghost idx0 = self.dependents@;
                proof {
                    assert(old(self).user_dictionaries@[a as int].words@.len() == u0[a as int].words@.len());
                }
                let deps = crate::dictionary::copy_strings(&user_lists[a][b]);
                record_dependents(&mut self.dependents, name.as_str(), &deps);
                let mut d = self.user_dictionaries.remove(a);
                let ghost w0 = d.words@;
                replace_dependencies(&mut d.words, b, &deps);
                self.user_dictionaries.insert(a, d);
                proof {
                    let u1 = self.user_dictionaries@;
                    assert(u1 =~= u0.update(a as int, d));
                    assert(users_reshaped(u1, u0));
                    lemma_users_reshaped_trans(u1, u0, old(self).user_dictionaries@);
                    lemma_users_depending_frame(u1, u0, a as int);
                    lemma_words_depending_frame(dn@, d.words@, w0, b as int);
                    assert forall|x: Seq<char>| #[trigger] dependents_at(self.dependents@, x) == (users_depending(
                        u1,
                        x,
                        a as int,
                    ) + words_depending(dn@, u1[a as int].words@, x, b + 1)).to_set() by {
                        let pre = users_depending(u0, x, a as int) + words_depending(dn@, w0, x, b as int);
                        assert(dependents_at(idx0, x) == pre.to_set());
                        assert(users_depending(u1, x, a as int) == users_depending(u0, x, a as int));
                        assert(words_depending(dn@, d.words@, x, b as int) == words_depending(dn@, w0, x, b as int));
                        assert(d.words@[b as int].name@ == w0[b as int].name@);
                        assert(strings_view(d.words@[b as int].def.dependencies@) == strings_view(deps@));
                        if names_set(deps@).contains(x) {
                            assert(strings_view(deps@).contains(x));
                            assert(pre.push(name@) =~= users_depending(u1, x, a as int) + words_depending(
                                dn@,
                                d.words@,
                                x,
                                b + 1,
                            ));
                            pre.lemma_push_to_set_commute(name@);
                        } else {
                            assert(!strings_view(d.words@[b as int].def.dependencies@).contains(x));
                            assert(pre =~= users_depending(u1, x, a as int) + words_depending(dn@, d.words@, x, b + 1));
                        }
                    }
                }
                proof {
                    let u1 = self.user_dictionaries@;
                    assert forall|b2: int|
                        0 <= b2 < u0[a as int].words@.len() && b2 != b implies (#[trigger] u1[a as int].words@[b2]).name@
                            == u0[a as int].words@[b2].name@ && strings_view(u1[a as int].words@[b2].def.dependencies@)
                            == strings_view(u0[a as int].words@[b2].def.dependencies@) by {
                        assert(w0[b2].name@ == u1[a as int].words@[b2].name@);
                    }
                    lemma_users_linked_step(u0, u1, a as int, b as int, name@, strings_view(deps@));
                    assert(names_set(deps@) == user_word_deps(old(self), a as int, b as int)) by {
                        assert(names_set(user_lists@[a as int]@[b as int]@) == user_word_deps(old(self), a as int, b as int));
                        assert(deps@.map_values(|x: String| x@) == strings_view(deps@));
                        assert(user_lists@[a as int]@[b as int]@.map_values(|x: String| x@) == strings_view(user_lists@[a as int]@[b as int]@));
                    }
                    assert forall|a2: int, b2: int|
                        user_before(u1, a as int, b + 1, a2, b2) implies names_set(
                            (#[trigger] u1[a2].words@[b2]).def.dependencies@,
                        ) == user_word_deps(old(self), a2, b2) by {
                        if a2 == a && b2 == b {
                            assert(u1[a2].words@[b2].def.dependencies@.map_values(|x: String| x@) == strings_view(u1[a2].words@[b2].def.dependencies@));
                            assert(deps@.map_values(|x: String| x@) == strings_view(deps@));
                        } else if a2 == a {
                            assert(strings_view(u1[a2].words@[b2].def.dependencies@) == strings_view(u0[a2].words@[b2].def.dependencies@));
                            assert(u1[a2].words@[b2].def.dependencies@.map_values(|x: String| x@) == strings_view(u1[a2].words@[b2].def.dependencies@));
                            assert(u0[a2].words@[b2].def.dependencies@.map_values(|x: String| x@) == strings_view(u0[a2].words@[b2].def.dependencies@));
                            assert(user_before(u0, a as int, b as int, a2, b2));
                        } else {
                            assert(u1[a2] == u0[a2]);
                            assert(user_before(u0, a as int, b as int, a2, b2));
                        }
                    }
                }
                self.link_calls(name.as_str(), &deps);
                b = b + 1;
            }
            proof {
                assert forall|x: Seq<char>| #[trigger] dependents_at(self.dependents@, x) == users_depending(
                    self.user_dictionaries@,
                    x,
                    a + 1,
                ).to_set() by {}
                lemma_users_linked_next(self.user_dictionaries@, a as int);
                assert forall|a2: int, b2: int|
                    user_before(self.user_dictionaries@, a + 1, 0, a2, b2) implies names_set(
                        (#[trigger] self.user_dictionaries@[a2].words@[b2]).def.dependencies@,
                    ) == user_word_deps(old(self), a2, b2) by {
                    assert(user_before(self.user_dictionaries@, a as int, nw as int, a2, b2));
                }
            }
            a = a + 1;
        }
        proof {
            assert forall|x: Seq<char>| #[trigger] dependents_at(self.dependents@, x) == (users_depending(
                self.user_dictionaries@,
                x,
                nu0 as int,
            ) + samples_depending(self.module_vocabulary@, x, 0)).to_set() by {
                assert(users_depending(self.user_dictionaries@, x, nu0 as int) + samples_depending(
                    self.module_vocabulary@,
                    x,
                    0,
                ) =~= users_depending(self.user_dictionaries@, x, nu0 as int));
            }
        }
        let ghost us_done = self.user_dictionaries;
        proof {
            assert forall|x: Seq<char>, y: Seq<char>| #[trigger] depends_on(self.dictionary_dependencies@, x).contains(y)
                <==> (users_linked(self.user_dictionaries@, nu0 as int, 0, x, y) || samples_linked(
                self.module_vocabulary@,
                0,
                0,
                x,
                y,
            )) by {}
        }
        let nm0 = self.module_vocabulary.len();
        let mut m: usize = 0;
        while m < nm0
            invariant
                0 <= m <= nm0,
                nm0 == self.module_vocabulary@.len(),
                nu0 == self.user_dictionaries@.len(),
                same_frame(self, old(self)),
                self.resolve_cache == old(self).resolve_cache,
                self.runtime_metrics == old(self).runtime_metrics,
                users_reshaped(self.user_dictionaries@, old(self).user_dictionaries@),
                modules_reshaped(self.module_vocabulary@, old(self).module_vocabulary@),
                mirrored(self.dictionary_dependencies@),
                forall|x: Seq<char>| #[trigger] dependents_at(self.dependents@, x) == (users_depending(
                    self.user_dictionaries@,
                    x,
                    nu0 as int,
                ) + samples_depending(self.module_vocabulary@, x, m as int)).to_set(),
                self.user_dictionaries == us_done,
                forall|x: Seq<char>, y: Seq<char>| #[trigger] depends_on(self.dictionary_dependencies@, x).contains(y)
                    <==> (users_linked(self.user_dictionaries@, nu0 as int, 0, x, y) || samples_linked(
                    self.module_vocabulary@,
                    m as int,
                    0,
                    x,
                    y,
                )),
                user_lists@.len() == old(self).user_dictionaries@.len(),
                forall|a2: int| 0 <= a2 < user_lists@.len() ==> (#[trigger] user_lists@[a2])@.len() == old(self).user_dictionaries@[a2].words@.len(),
                sample_lists@.len() == old(self).module_vocabulary@.len(),
                forall|a2: int| 0 <= a2 < sample_lists@.len() ==> (#[trigger] sample_lists@[a2])@.len() == old(self).module_vocabulary@[a2].sample_words@.len(),
                forall|a2: int, b2: int|
                    0 <= a2 < sample_lists@.len() && 0 <= b2 < sample_lists@[a2]@.len() ==> names_set((#[trigger] sample_lists@[a2]@[b2])@) == sample_word_deps(old(self), a2, b2),
                forall|a2: int, b2: int|
                    user_before(self.user_dictionaries@, nu0 as int, 0, a2, b2) ==> names_set(
                        (#[trigger] self.user_dictionaries@[a2].words@[b2]).def.dependencies@,
                    ) == user_word_deps(old(self), a2, b2),
                forall|a2: int, b2: int|
                    sample_before(self.module_vocabulary@, m as int, 0, a2, b2) ==> names_set(
                        (#[trigger] self.module_vocabulary@[a2].sample_words@[b2]).def.dependencies@,
                    ) == sample_word_deps(old(self), a2, b2),
            decreases nm0 - m,
        {
            let dn = crate::value::copy_string(&self.module_vocabulary[m].name);
            let nw = self.module_vocabulary[m].sample_words.len();
            let mut b: usize = 0;
            proof {
                assert forall|x: Seq<char>| #[trigger] dependents_at(self.dependents@, x) == (users_depending(
                    self.user_dictionaries@,
                    x,
                    nu0 as int,
                ) + samples_depending(self.module_vocabulary@, x, m as int) + words_depending(
                    dn@,
                    self.module_vocabulary@[m as int].sample_words@,
                    x,
                    0,
                )).to_set() by {
                    let p = users_depending(self.user_dictionaries@, x, nu0 as int) + samples_depending(
                        self.module_vocabulary@,
                        x,
                        m as int,
                    );
                    assert(p + words_depending(dn@, self.module_vocabulary@[m as int].sample_words@, x, 0) =~= p);
                }
            }
            while b < nw
                invariant
                    0 <= b <= nw,
                    m < nm0,
                    nm0 == self.module_vocabulary@.len(),
                    nu0 == self.user_dictionaries@.len(),
                    nw == self.module_vocabulary@[m as int].sample_words@.len(),
                    dn@ == self.module_vocabulary@[m as int].name@,
                    same_frame(self, old(self)),
                self.resolve_cache == old(self).resolve_cache,
                self.runtime_metrics == old(self).runtime_metrics,
                    users_reshaped(self.user_dictionaries@, old(self).user_dictionaries@),
                    modules_reshaped(self.module_vocabulary@, old(self).module_vocabulary@),
                    mirrored(self.dictionary_dependencies@),
                    forall|x: Seq<char>| #[trigger] dependents_at(self.dependents@, x) == (users_depending(
                        self.user_dictionaries@,
                        x,
                        nu0 as int,
                    ) + samples_depending(self.module_vocabulary@, x, m as int) + words_depending(
                        dn@,
                        self.module_vocabulary@[m as int].sample_words@,
                        x,
                        b as int,
                    )).to_set(),
                    self.user_dictionaries == us_done,
                    forall|x: Seq<char>, y: Seq<char>| #[trigger] depends_on(self.dictionary_dependencies@, x).contains(y)
                        <==> (users_linked(self.user_dictionaries@, nu0 as int, 0, x, y) || samples_linked(
                        self.module_vocabulary@,
                        m as int,
                        b as int,
                        x,
                        y,
                    )),
                    user_lists@.len() == old(self).user_dictionaries@.len(),
                    forall|a2: int| 0 <= a2 < user_lists@.len() ==> (#[trigger] user_lists@[a2])@.len() == old(self).user_dictionaries@[a2].words@.len(),
                    sample_lists@.len() == old(self).module_vocabulary@.len(),
                    forall|a2: int| 0 <= a2 < sample_lists@.len() ==> (#[trigger] sample_lists@[a2])@.len() == old(self).module_vocabulary@[a2].sample_words@.len(),
                    forall|a2: int, b2: int|
                        0 <= a2 < sample_lists@.len() && 0 <= b2 < sample_lists@[a2]@.len() ==> names_set((#[trigger] sample_lists@[a2]@[b2])@) == sample_word_deps(old(self), a2, b2),
                    forall|a2: int, b2: int|
                        user_before(self.user_dictionaries@, nu0 as int, 0, a2, b2) ==> names_set(
                            (#[trigger] self.user_dictionaries@[a2].words@[b2]).def.dependencies@,
                        ) == user_word_deps(old(self), a2, b2),
                    forall|a2: int, b2: int|
                        sample_before(self.module_vocabulary@, m as int, b as int, a2, b2) ==> names_set(
                            (#[trigger] self.module_vocabulary@[a2].sample_words@[b2]).def.dependencies@,
                        ) == sample_word_deps(old(self), a2, b2),
                decreases nw - b,
            {
                let name = qualified(dn.as_str(), self.module_vocabulary[m].sample_words[b].name.as_str());
                let ghost m0 = self.module_vocabulary@;
                let ghost idx0 = self.dependents@;
                proof {
                    assert(old(self).module_vocabulary@[m as int].sample_words@.len() == m0[m as int].sample_words@.len());
                }
                let deps = crate::dictionary::copy_strings(&sample_lists[m][b]);
                record_dependents(&mut self.dependents, name.as_str(), &deps);
                let mut md = self.module_vocabulary.remove(m);
                let ghost w0 = md.sample_words@;
                replace_dependencies(&mut md.sample_words, b, &deps);
                self.module_vocabulary.insert(m, md);
                proof {
                    let m1 = self.module_vocabulary@;
                    assert(m1 =~= m0.update(m as int, md));
                    assert(modules_reshaped(m1, m0));
                    lemma_modules_reshaped_trans(m1, m0, old(self).module_vocabulary@);
                    lemma_samples_depending_frame(m1, m0, m as int);
                    lemma_words_depending_frame(dn@, md.sample_words@, w0, b as int);
                    assert forall|x: Seq<char>| #[trigger] dependents_at(self.dependents@, x) == (users_depending(
                        self.user_dictionaries@,
                        x,
                        nu0 as int,
                    ) + samples_depending(m1, x, m as int) + words_depending(dn@, m1[m as int].sample_words@, x, b + 1)).to_set() by {
                        let pre = users_depending(self.user_dictionaries@, x, nu0 as int) + samples_depending(
                            m0,
                            x,
                            m as int,
                        ) + words_depending(dn@, w0, x, b as int);
                        assert(dependents_at(idx0, x) == pre.to_set());
                        assert(samples_depending(m1, x, m as int) == samples_depending(m0, x, m as int));
                        assert(words_depending(dn@, md.sample_words@, x, b as int) == words_depending(dn@, w0, x, b as int));
                        assert(md.sample_words@[b as int].name@ == w0[b as int].name@);
                        assert(strings_view(md.sample_words@[b as int].def.dependencies@) == strings_view(deps@));
                        if names_set(deps@).contains(x) {
                            assert(strings_view(deps@).contains(x));
                            assert(pre.push(name@) =~= users_depending(self.user_dictionaries@, x, nu0 as int)
                                + samples_depending(m1, x, m as int) + words_depending(dn@, md.sample_words@, x, b + 1));
                            pre.lemma_push_to_set_commute(name@);
                        } else {
                            assert(!strings_view(md.sample_words@[b as int].def.dependencies@).contains(x));
                            assert(pre =~= users_depending(self.user_dictionaries@, x, nu0 as int) + samples_depending(
                                m1,
                                x,
                                m as int,
                            ) + words_depending(dn@, md.sample_words@, x, b + 1));
                        }
                    }
                }
                proof {
                    let m1 = self.module_vocabulary@;
                    assert forall|b2: int|
                        0 <= b2 < m0[m as int].sample_words@.len() && b2 != b implies (#[trigger] m1[m as int].sample_words@[b2]).name@
                            == m0[m as int].sample_words@[b2].name@ && strings_view(m1[m as int].sample_words@[b2].def.dependencies@)
                            == strings_view(m0[m as int].sample_words@[b2].def.dependencies@) by {
                        assert(w0[b2].name@ == m1[m as int].sample_words@[b2].name@);
                    }
                    lemma_samples_linked_step(m0, m1, m as int, b as int, name@, strings_view(deps@));
                    assert(names_set(deps@) == sample_word_deps(old(self), m as int, b as int)) by {
                        assert(names_set(sample_lists@[m as int]@[b as int]@) == sample_word_deps(old(self), m as int, b as int));
                        assert(deps@.map_values(|x: String| x@) == strings_view(deps@));
                        assert(sample_lists@[m as int]@[b as int]@.map_values(|x: String| x@) == strings_view(sample_lists@[m as int]@[b as int]@));
                    }
                    assert forall|a2: int, b2: int|
                        sample_before(m1, m as int, b + 1, a2, b2) implies names_set(
                            (#[trigger] m1[a2].sample_words@[b2]).def.dependencies@,
                        ) == sample_word_deps(old(self), a2, b2) by {
                        if a2 == m && b2 == b {
                            assert(m1[a2].sample_words@[b2].def.dependencies@.map_values(|x: String| x@) == strings_view(m1[a2].sample_words@[b2].def.dependencies@));
                            assert(deps@.map_values(|x: String| x@) == strings_view(deps@));
                        } else if a2 == m {
                            assert(strings_view(m1[a2].sample_words@[b2].def.dependencies@) == strings_view(m0[a2].sample_words@[b2].def.dependencies@));
                            assert(m1[a2].sample_words@[b2].def.dependencies@.map_values(|x: String| x@) == strings_view(m1[a2].sample_words@[b2].def.dependencies@));
                            assert(m0[a2].sample_words@[b2].def.dependencies@.map_values(|x: String| x@) == strings_view(m0[a2].sample_words@[b2].def.dependencies@));
                            assert(sample_before(m0, m as int, b as int, a2, b2));
                        } else {
                            assert(m1[a2] == m0[a2]);
                            assert(sample_before(m0, m as int, b as int, a2, b2));
                        }
                    }
                }
                self.link_calls(name.as_str(), &deps);
                b = b + 1;
            }
            proof {
                lemma_samples_linked_next(self.module_vocabulary@, m as int);
                assert forall|a2: int, b2: int|
                    sample_before(self.module_vocabulary@, m + 1, 0, a2, b2) implies names_set(
                        (#[trigger] self.module_vocabulary@[a2].sample_words@[b2]).def.dependencies@,
                    ) == sample_word_deps(old(self), a2, b2) by {
                    assert(sample_before(self.module_vocabulary@, m as int, nw as int, a2, b2));
                }
                assert forall|x: Seq<char>| #[trigger] dependents_at(self.dependents@, x) == (users_depending(
                    self.user_dictionaries@,
                    x,
                    nu0 as int,
                ) + samples_depending(self.module_vocabulary@, x, m + 1)).to_set() by {
                    let p = users_depending(self.user_dictionaries@, x, nu0 as int);
                    assert(p + samples_depending(self.module_vocabulary@, x, m + 1) =~= p + samples_depending(
                        self.module_vocabulary@,
                        x,
                        m as int,
                    ) + words_depending(
                        dn@,
                        self.module_vocabulary@[m as int].sample_words@,
                        x,
                        nw as int,
                    ));
                }
            }
            m = m + 1;
        }
        let ghost mid = *self;
        proof {
            assert forall|x: Seq<char>| #[trigger] dependents_at(mid.dependents@, x) == dependents_of(&mid, x) by {}
            assert forall|x: Seq<char>, y: Seq<char>| #[trigger] depends_on(mid.dictionary_dependencies@, x).contains(y)
                <==> words_link(&mid, x, y) by {
                let us = mid.user_dictionaries@;
                let ms = mid.module_vocabulary@;
                if users_linked(us, nu0 as int, 0, x, y) {
                    let (a2, b2) = choose|a2: int, b2: int| user_before(us, nu0 as int, 0, a2, b2) && #[trigger] user_link(us, a2, b2, x, y);
                    assert(user_link(us, a2, b2, x, y));
                }
                if samples_linked(ms, nm0 as int, 0, x, y) {
                    let (a2, b2) = choose|a2: int, b2: int| sample_before(ms, nm0 as int, 0, a2, b2) && #[trigger] sample_link(ms, a2, b2, x, y);
                    assert(sample_link(ms, a2, b2, x, y));
                }
                if exists|a: int, b: int|
                    0 <= a < us.len() && 0 <= b < us[a].words@.len() && #[trigger] user_link(us, a, b, x, y) {
                    let (a2, b2) = choose|a: int, b: int|
                        0 <= a < us.len() && 0 <= b < us[a].words@.len() && #[trigger] user_link(us, a, b, x, y);
                    assert(user_before(us, nu0 as int, 0, a2, b2));
                }
                if exists|a: int, b: int|
                    0 <= a < ms.len() && 0 <= b < ms[a].sample_words@.len() && #[trigger] sample_link(ms, a, b, x, y) {
                    let (a2, b2) = choose|a: int, b: int|
                        0 <= a < ms.len() && 0 <= b < ms[a].sample_words@.len() && #[trigger] sample_link(ms, a, b, x, y);
                    assert(sample_before(ms, nm0 as int, 0, a2, b2));
                }
            }
        }
        let nu = self.user_dictionaries.len();
        let mut a: usize = 0;
        while a < nu
            invariant
                0 <= a <= nu,
                nu == self.user_dictionaries@.len(),
                mirrored(self.dictionary_dependencies@),
                same_frame(self, old(self)),
                self.resolve_cache == old(self).resolve_cache,
                self.runtime_metrics == old(self).runtime_metrics,
                users_reshaped(self.user_dictionaries@, old(self).user_dictionaries@),
                modules_reshaped(self.module_vocabulary@, old(self).module_vocabulary@),
                forall|i: int| 0 <= i < a ==> has_row(self.dictionary_dependencies@, (#[trigger] self.user_dictionaries@[i]).name@),
                self.dependents == mid.dependents,
                self.user_dictionaries == mid.user_dictionaries,
                self.module_vocabulary == mid.module_vocabulary,
                forall|x: Seq<char>| #[trigger] depends_on(self.dictionary_dependencies@, x) == depends_on(mid.dictionary_dependencies@, x),
            decreases nu - a,
        {
            let ghost d0 = self.dictionary_dependencies@;
            let _ = ensure_row(&mut self.dictionary_dependencies, self.user_dictionaries[a].name.as_str());
            proof {
                assert forall|x: Seq<char>, y: Seq<char>| #[trigger] depends_on(self.dictionary_dependencies@, x).contains(y)
                    <==> #[trigger] depended_by(self.dictionary_dependencies@, y).contains(x) by {
                    assert(depends_on(self.dictionary_dependencies@, x) == depends_on(d0, x));
                    assert(depended_by(self.dictionary_dependencies@, y) == depended_by(d0, y));
                }
                assert forall|i: int| 0 <= i < a + 1 implies has_row(self.dictionary_dependencies@, (#[trigger] self.user_dictionaries@[i]).name@) by {
                    if i < a {
                        assert(has_row(d0, self.user_dictionaries@[i].name@));
                    }
                }
            }
            a = a + 1;
        }
        let nm = self.module_vocabulary.len();
        let mut m: usize = 0;
        while m < nm
            invariant
                0 <= m <= nm,
                nm == self.module_vocabulary@.len(),
                nu == self.user_dictionaries@.len(),
                mirrored(self.dictionary_dependencies@),
                same_frame(self, old(self)),
                self.resolve_cache == old(self).resolve_cache,
                self.runtime_metrics == old(self).runtime_metrics,
                users_reshaped(self.user_dictionaries@, old(self).user_dictionaries@),
                modules_reshaped(self.module_vocabulary@, old(self).module_vocabulary@),
                forall|i: int| 0 <= i < nu ==> has_row(self.dictionary_dependencies@, (#[trigger] self.user_dictionaries@[i]).name@),
                forall|i: int| 0 <= i < m ==> has_row(self.dictionary_dependencies@, (#[trigger] self.module_vocabulary@[i]).name@),
                self.dependents == mid.dependents,
                self.user_dictionaries == mid.user_dictionaries,
                self.module_vocabulary == mid.module_vocabulary,
                forall|x: Seq<char>| #[trigger] depends_on(self.dictionary_dependencies@, x) == depends_on(mid.dictionary_dependencies@, x),
            decreases nm - m,
        {
            let ghost d0 = self.dictionary_dependencies@;
            let _ = ensure_row(&mut self.dictionary_dependencies, self.module_vocabulary[m].name.as_str());
            proof {
                assert forall|x: Seq<char>, y: Seq<char>| #[trigger] depends_on(self.dictionary_dependencies@, x).contains(y)
                    <==> #[trigger] depended_by(self.dictionary_dependencies@, y).contains(x) by {
                    assert(depends_on(self.dictionary_dependencies@, x) == depends_on(d0, x));
                    assert(depended_by(self.dictionary_dependencies@, y) == depended_by(d0, y));
                }
                assert forall|i: int| 0 <= i < nu implies has_row(self.dictionary_dependencies@, (#[trigger] self.user_dictionaries@[i]).name@) by {
                    assert(has_row(d0, self.user_dictionaries@[i].name@));
                }
                assert forall|i: int| 0 <= i < m + 1 implies has_row(self.dictionary_dependencies@, (#[trigger] self.module_vocabulary@[i]).name@) by {
                    if i < m {
                        assert(has_row(d0, self.module_vocabulary@[i].name@));
                    }
                }
            }
            m = m + 1;
        }
        let ghost before_sync = *self;
        self.sync_user_words_cache();
        proof {
            assert(demo_words(self) == demo_words(&before_sync));
            assert forall|i: int| 0 <= i < self.user_dictionaries@.len() implies has_row(
                self.dictionary_dependencies@,
                (#[trigger] self.user_dictionaries@[i]).name@,
            ) by {
                assert(self.user_dictionaries@[i] == before_sync.user_dictionaries@[i]);
            }
            assert forall|i: int| 0 <= i < self.module_vocabulary@.len() implies has_row(
                self.dictionary_dependencies@,
                (#[trigger] self.module_vocabulary@[i]).name@,
            ) by {
                assert(self.module_vocabulary@[i] == before_sync.module_vocabulary@[i]);
            }
            assert forall|x: Seq<char>| #[trigger] dependents_at(self.dependents@, x) == dependents_of(self, x) by {
                assert(dependents_at(mid.dependents@, x) == dependents_of(&mid, x));
            }
            assert forall|x: Seq<char>, y: Seq<char>| #[trigger] depends_on(self.dictionary_dependencies@, x).contains(y)
                <==> words_link(self, x, y) by {
                assert(depends_on(self.dictionary_dependencies@, x) == depends_on(mid.dictionary_dependencies@, x));
                assert(depends_on(mid.dictionary_dependencies@, x).contains(y) <==> words_link(&mid, x, y));
            }
        }
        Ok(())
    }
}

} // verus!
