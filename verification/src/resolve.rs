//! Name resolution: what a word name, bare or qualified by `@` paths,
//! denotes in the interpreter's vocabulary, and the resolve cache in front
//! of it.
use crate::dictionary::{find_module, find_user, find_word, lookup, module_names_of, position, user_names_of, ModuleDictionary, NamedWord, UserDictionary, WordDefinition, WordView};
use crate::imports::ImportView;
use crate::dictionary::{first_at, lemma_first_unique, lemma_position, ResolveCacheEntry};
use crate::interpreter::{bump, bumped, Interpreter, RuntimeMetrics};
use crate::text::{spec_to_uppercase, str_equal, to_uppercase};
use vstd::prelude::*;

verus! {

// ── Paths ────────────────────────────────────────────────────────────────────
/// Splitting `s` at `c` after reading `n` characters: the finished pieces
/// and where the current piece starts.
pub open spec fn split_state(s: Seq<char>, c: char, n: int) -> (Seq<Seq<char>>, int)
    decreases n,
{
    if n <= 0 {
        (Seq::empty(), 0)
    } else {
        let (done, start) = split_state(s, c, n - 1);
        if s[n - 1] == c {
            (done.push(s.subrange(start, n - 1)), n)
        } else {
            (done, start)
        }
    }
}

/// The pieces of `s` between the occurrences of `c`.
pub open spec fn pieces(s: Seq<char>, c: char) -> Seq<Seq<char>> {
    let (done, start) = split_state(s, c, s.len() as int);
    done.push(s.subrange(start, s.len() as int))
}

/// The upper-cased `@`-separated parts of a name.
pub open spec fn path_parts(name: Seq<char>) -> Seq<Seq<char>> {
    pieces(name, '@').map_values(|p: Seq<char>| spec_to_uppercase(p))
}

proof fn lemma_split_state_bounds(s: Seq<char>, c: char, n: int)
    requires
        0 <= n <= s.len(),
    ensures
        0 <= split_state(s, c, n).1 <= n,
    decreases n,
{
    if n > 0 {
        lemma_split_state_bounds(s, c, n - 1);
    }
}

/// The layers and the word of a path: `A@B@W` is `([A, B], W)`, upper-cased.
pub fn split_path(name: &str) -> (r: (Vec<String>, String))
    ensures
        r.0@.map_values(|x: String| x@) == path_parts(name@).drop_last(),
        r.1@ == path_parts(name@).last(),
{
    let n = name.unicode_len();
    let mut parts: Vec<String> = Vec::new();
    let mut start: usize = 0;
    let mut i: usize = 0;
    while i < n
        invariant
            n == name@.len(),
            0 <= i <= n,
            (parts@.map_values(|x: String| x@), start as int) == (
                split_state(name@, '@', i as int).0.map_values(|p: Seq<char>| spec_to_uppercase(p)),
                split_state(name@, '@', i as int).1,
            ),
        decreases n - i,
    {
        proof {
            lemma_split_state_bounds(name@, '@', i as int);
        }
        if name.get_char(i) == '@' {
            let piece = to_uppercase(name.substring_char(start, i));
            let ghost before = parts@;
            parts.push(piece);
            proof {
                assert(parts@.map_values(|x: String| x@) =~= before.map_values(|x: String| x@).push(
                    piece@,
                ));
                let (d, st) = split_state(name@, '@', i as int);
                assert(d.push(name@.subrange(st, i as int)).map_values(
                    |p: Seq<char>| spec_to_uppercase(p),
                ) =~= d.map_values(|p: Seq<char>| spec_to_uppercase(p)).push(
                    spec_to_uppercase(name@.subrange(st, i as int)),
                ));
            }
            start = i + 1;
        }
        i = i + 1;
    }
    proof {
        lemma_split_state_bounds(name@, '@', n as int);
    }
    let word = to_uppercase(name.substring_char(start, n));
    proof {
        let (d, st) = split_state(name@, '@', n as int);
        let all = pieces(name@, '@');
        assert(all == d.push(name@.subrange(st, n as int)));
        assert(path_parts(name@) =~= d.map_values(|p: Seq<char>| spec_to_uppercase(p)).push(
            spec_to_uppercase(name@.subrange(st, n as int)),
        ));
        assert(path_parts(name@).drop_last() =~= d.map_values(|p: Seq<char>| spec_to_uppercase(p)));
    }
    (parts, word)
}

/// The dictionary and the word a qualified name names: the last layer and
/// the word; a bare name names none.
pub fn split_qualified_name(name: &str) -> (r: Option<(String, String)>)
    ensures
        path_parts(name@).len() < 2 ==> r is None,
        path_parts(name@).len() >= 2 ==> (r matches Some((d, w)) && d@ == path_parts(name@)[path_parts(
            name@,
        ).len() - 2] && w@ == path_parts(name@).last()),
{
    let (layers, word) = split_path(name);
    proof {
        let (d, st) = split_state(name@, '@', name@.len() as int);
        assert(pieces(name@, '@').len() == d.len() + 1);
        assert(path_parts(name@).len() == pieces(name@, '@').len());
        assert(layers@.map_values(|x: String| x@).len() == layers@.len());
        assert(layers@.len() == path_parts(name@).len() - 1);
    }
    if layers.len() == 0 {
        None
    } else {
        let last = crate::value::copy_string(&layers[layers.len() - 1]);
        proof {
            let lv = layers@.map_values(|x: String| x@);
            assert(lv[layers@.len() - 1] == layers@[layers@.len() - 1]@);
        }
        Some((last, word))
    }
}

/// `module@word`.
pub open spec fn qualify(module: Seq<char>, word: Seq<char>) -> Seq<char> {
    module + seq!['@'] + word
}

pub fn qualified(module: &str, word: &str) -> (r: String)
    ensures
        r@ == qualify(module@, word@),
{
    let mut s = String::from_str(module);
    s.append("@");
    s.append(word);
    proof {
        reveal_strlit("@");
    }
    s
}

// ── Imports ──────────────────────────────────────────────────────────────────
/// Word `w` of module `m` is imported.
pub open spec fn word_imported(t: Map<Seq<char>, ImportView>, m: Seq<char>, w: Seq<char>) -> bool {
    t.contains_key(m) && (t[m].import_all_public || t[m].words.contains(w))
}

/// Sample word `w` of module `m` is imported.
pub open spec fn sample_imported(t: Map<Seq<char>, ImportView>, m: Seq<char>, w: Seq<char>) -> bool {
    t.contains_key(m) && (t[m].import_all_public || t[m].samples.contains(w))
}

/// What resolution reads of an interpreter.
pub struct Vocab {
    pub core: Seq<NamedWord>,
    pub modules: Seq<ModuleDictionary>,
    pub users: Seq<UserDictionary>,
    pub imports: Map<Seq<char>, ImportView>,
}

pub open spec fn vocab(i: &Interpreter) -> Vocab {
    Vocab {
        core: i.core_vocabulary@,
        modules: i.module_vocabulary@,
        users: i.user_dictionaries@,
        imports: i.import_table.view(),
    }
}

// ── Short names ──────────────────────────────────────────────────────────────
/// Module `k` has word `upper` imported and defined.
pub open spec fn module_word_hit(v: Vocab, k: int, upper: Seq<char>) -> bool {
    let m = v.modules[k];
    word_imported(v.imports, m.name@, upper) && lookup(m.words@, qualify(m.name@, upper)) is Some
}

/// The first module that imports and defines word `upper`, or -1.
pub open spec fn first_module_word(v: Vocab, upper: Seq<char>) -> int {
    let n = v.modules.len() as int;
    if exists|k: int|
        0 <= k < n && module_word_hit(v, k, upper) && forall|j: int|
            0 <= j < k ==> !#[trigger] module_word_hit(v, j, upper) {
        choose|k: int|
            0 <= k < n && module_word_hit(v, k, upper) && forall|j: int|
                0 <= j < k ==> !#[trigger] module_word_hit(v, j, upper)
    } else {
        -1
    }
}

proof fn lemma_first_module_word_at(v: Vocab, upper: Seq<char>, k: int)
    requires
        0 <= k < v.modules.len(),
        module_word_hit(v, k, upper),
        forall|j: int| 0 <= j < k ==> !#[trigger] module_word_hit(v, j, upper),
    ensures
        first_module_word(v, upper) == k,
{
    let n = v.modules.len() as int;
    let c = choose|c: int|
        0 <= c < n && module_word_hit(v, c, upper) && forall|j: int|
            0 <= j < c ==> !#[trigger] module_word_hit(v, j, upper);
    assert(0 <= c < n && module_word_hit(v, c, upper));
    if c < k {
        assert(!module_word_hit(v, c, upper));
    } else if k < c {
        assert(!module_word_hit(v, k, upper));
    }
}

/// Module `k` has sample word `upper` imported and defined.
pub open spec fn module_sample_hit(v: Vocab, k: int, upper: Seq<char>) -> bool {
    let m = v.modules[k];
    sample_imported(v.imports, m.name@, upper) && lookup(m.sample_words@, upper) is Some
}

/// The imported sample words called `upper` in the first `n` modules.
pub open spec fn sample_matches(v: Vocab, upper: Seq<char>, n: int) -> Seq<(Seq<char>, WordView)>
    decreases n,
{
    if n <= 0 {
        Seq::empty()
    } else {
        let prev = sample_matches(v, upper, n - 1);
        let m = v.modules[n - 1];
        if module_sample_hit(v, n - 1, upper) {
            prev.push((qualify(m.name@, upper), lookup(m.sample_words@, upper).unwrap()))
        } else {
            prev
        }
    }
}

/// The words called `upper` in the first `n` user dictionaries.
pub open spec fn user_matches(v: Vocab, upper: Seq<char>, n: int) -> Seq<(Seq<char>, WordView)>
    decreases n,
{
    if n <= 0 {
        Seq::empty()
    } else {
        let prev = user_matches(v, upper, n - 1);
        let u = v.users[n - 1];
        if lookup(u.words@, upper) is Some {
            prev.push((qualify(u.name@, upper), lookup(u.words@, upper).unwrap()))
        } else {
            prev
        }
    }
}

/// The match registered first; the earlier in the list among equals.
pub open spec fn earliest(ms: Seq<(Seq<char>, WordView)>) -> (Seq<char>, WordView)
    decreases ms.len(),
{
    if ms.len() <= 1 {
        ms[0]
    } else {
        let b = earliest(ms.drop_last());
        if ms.last().1.registration_order < b.1.registration_order {
            ms.last()
        } else {
            b
        }
    }
}

/// What a bare (upper-cased) name resolves to: a core word; else the word
/// of the first module that imports and defines it; else the earliest
/// registered imported sample word or user word of that name, provided the
/// name is not both.
pub open spec fn short_resolution(v: Vocab, upper: Seq<char>) -> Option<(Seq<char>, WordView)> {
    match lookup(v.core, upper) {
        Some(d) => Some((upper, d)),
        None => {
            let k = first_module_word(v, upper);
            if k >= 0 {
                let m = v.modules[k];
                Some((qualify(m.name@, upper), lookup(m.words@, qualify(m.name@, upper)).unwrap()))
            } else {
                let ms = sample_matches(v, upper, v.modules.len() as int);
                let us = user_matches(v, upper, v.users.len() as int);
                if ms.len() > 0 && us.len() > 0 {
                    None
                } else if ms.len() > 0 {
                    Some(earliest(ms))
                } else if us.len() > 0 {
                    Some(earliest(us))
                } else {
                    None
                }
            }
        },
    }
}

/// An executable resolution agrees with a specified one.
pub open spec fn resolved_as(r: Option<(String, WordDefinition)>, s: Option<(Seq<char>, WordView)>) -> bool {
    match s {
        Some((n, d)) => r matches Some((a, b)) && a@ == n && b@ == d,
        None => r is None,
    }
}

/// Keep `(name, def)` over `best` when it was registered strictly earlier.
fn keep_earlier(best: Option<(String, WordDefinition)>, name: String, def: &WordDefinition) -> (r: Option<(String, WordDefinition)>)
    ensures
        match best {
            None => r matches Some((a, b)) && a@ == name@ && b@ == def@,
            Some((bn, bd)) => if def.registration_order < bd.registration_order {
                r matches Some((a, b)) && a@ == name@ && b@ == def@
            } else {
                r matches Some((a, b)) && a@ == bn@ && b@ == bd@
            },
        },
{
    match best {
        None => Some((name, def.copy())),
        Some((bn, bd)) => if def.registration_order < bd.registration_order {
            Some((name, def.copy()))
        } else {
            Some((bn, bd))
        },
    }
}

impl Interpreter {
    /// Whether word `short_name` of module `module_name` is imported.
    pub fn is_module_word_imported(&self, module_name: &str, short_name: &str) -> (r: bool)
        ensures
            r == word_imported(self.import_table.view(), module_name@, short_name@),
    {
        match self.import_table.get(module_name) {
            Some(m) => m.import_all_public || m.has_word(short_name),
            None => false,
        }
    }

    /// Whether sample word `short_name` of module `module_name` is imported.
    pub fn is_module_sample_imported(&self, module_name: &str, short_name: &str) -> (r: bool)
        ensures
            r == sample_imported(self.import_table.view(), module_name@, short_name@),
    {
        match self.import_table.get(module_name) {
            Some(m) => m.import_all_public || m.has_sample(short_name),
            None => false,
        }
    }

    /// Resolve a bare name, in any letter case, to its qualified name and
    /// definition.
    pub fn resolve_short_name(&self, name: &str) -> (r: Option<(String, WordDefinition)>)
        ensures
            resolved_as(r, short_resolution(vocab(self), spec_to_uppercase(name@))),
    {
        let upper = to_uppercase(name);
        let u = upper.as_str();
        let ghost up = upper@;
        if let Some(p) = find_word(&self.core_vocabulary, u) {
            return Some((crate::value::copy_string(&upper), self.core_vocabulary[p].def.copy()));
        }
        let nm = self.module_vocabulary.len();
        let mut k: usize = 0;
        while k < nm
            invariant
                nm == self.module_vocabulary@.len(),
                0 <= k <= nm,
                u@ == up,
                up == spec_to_uppercase(name@),
                lookup(self.core_vocabulary@, up) is None,
                forall|j: int| 0 <= j < k ==> !#[trigger] module_word_hit(vocab(self), j, up),
            decreases nm - k,
        {
            let m = &self.module_vocabulary[k];
            if self.is_module_word_imported(m.name.as_str(), u) {
                let q = qualified(m.name.as_str(), u);
                if let Some(p) = find_word(&m.words, q.as_str()) {
                    proof {
                        assert(module_word_hit(vocab(self), k as int, up));
                        lemma_first_module_word_at(vocab(self), up, k as int);
                    }
                    return Some((q, m.words[p].def.copy()));
                }
            }
            proof {
                assert(!module_word_hit(vocab(self), k as int, up));
            }
            k = k + 1;
        }
        proof {
            assert(first_module_word(vocab(self), up) == -1);
        }
        let mut best_mod: Option<(String, WordDefinition)> = None;
        let mut k: usize = 0;
        while k < nm
            invariant
                nm == self.module_vocabulary@.len(),
                0 <= k <= nm,
                u@ == up,
                up == spec_to_uppercase(name@),
                (sample_matches(vocab(self), up, k as int).len() > 0) == (best_mod is Some),
                best_mod matches Some((a, b)) ==> (a@, b@) == earliest(sample_matches(vocab(self), up, k as int)),
            decreases nm - k,
        {
            let m = &self.module_vocabulary[k];
            let ghost prev = sample_matches(vocab(self), up, k as int);
            if self.is_module_sample_imported(m.name.as_str(), u) {
                if let Some(p) = find_word(&m.sample_words, u) {
                    let q = qualified(m.name.as_str(), u);
                    best_mod = keep_earlier(best_mod, q, &m.sample_words[p].def);
                    proof {
                        let now = sample_matches(vocab(self), up, k + 1);
                        assert(now == prev.push((q@, m.sample_words@[p as int].def@)));
                        if prev.len() > 0 {
                            assert(now.drop_last() =~= prev);
                        }
                    }
                }
            }
            k = k + 1;
        }
        let nu = self.user_dictionaries.len();
        let mut best_user: Option<(String, WordDefinition)> = None;
        let mut k: usize = 0;
        while k < nu
            invariant
                nu == self.user_dictionaries@.len(),
                0 <= k <= nu,
                u@ == up,
                up == spec_to_uppercase(name@),
                (user_matches(vocab(self), up, k as int).len() > 0) == (best_user is Some),
                best_user matches Some((a, b)) ==> (a@, b@) == earliest(user_matches(vocab(self), up, k as int)),
            decreases nu - k,
        {
            let d = &self.user_dictionaries[k];
            let ghost prev = user_matches(vocab(self), up, k as int);
            if let Some(p) = find_word(&d.words, u) {
                let q = qualified(d.name.as_str(), u);
                best_user = keep_earlier(best_user, q, &d.words[p].def);
                proof {
                    let now = user_matches(vocab(self), up, k + 1);
                    assert(now == prev.push((q@, d.words@[p as int].def@)));
                    if prev.len() > 0 {
                        assert(now.drop_last() =~= prev);
                    }
                }
            }
            k = k + 1;
        }
        if best_mod.is_some() && best_user.is_some() {
            return None;
        }
        if best_mod.is_some() {
            return best_mod;
        }
        best_user
    }
}

/// The qualified names of some matches.
pub open spec fn match_names(ms: Seq<(Seq<char>, WordView)>) -> Seq<Seq<char>> {
    ms.map_values(|m: (Seq<char>, WordView)| m.0)
}

/// The paths a bare (upper-cased) name is ambiguous between: the imported
/// sample words and user words of that name when there are two or more and
/// no core word takes the name; otherwise none.
pub open spec fn ambiguity(v: Vocab, upper: Seq<char>) -> Seq<Seq<char>> {
    if lookup(v.core, upper) is Some {
        Seq::empty()
    } else {
        let paths = match_names(sample_matches(v, upper, v.modules.len() as int)) + match_names(
            user_matches(v, upper, v.users.len() as int),
        );
        if paths.len() > 1 {
            paths
        } else {
            Seq::empty()
        }
    }
}

// ── Paths to words ───────────────────────────────────────────────────────────
pub open spec fn core_name() -> Seq<char> {
    seq!['C', 'O', 'R', 'E']
}

pub open spec fn user_name() -> Seq<char> {
    seq!['U', 'S', 'E', 'R']
}

pub open spec fn dict_name() -> Seq<char> {
    seq!['D', 'I', 'C', 'T']
}

/// Core word `word`, under its bare name.
pub open spec fn core_path(v: Vocab, word: Seq<char>) -> Option<(Seq<char>, WordView)> {
    match lookup(v.core, word) {
        Some(d) => Some((word, d)),
        None => None,
    }
}

/// Word `word` of the module at `p`: an imported word first, then an
/// imported sample word.
pub open spec fn module_word_path(v: Vocab, p: int, word: Seq<char>) -> Option<(Seq<char>, WordView)> {
    let m = v.modules[p];
    let q = qualify(m.name@, word);
    if word_imported(v.imports, m.name@, word) && lookup(m.words@, q) is Some {
        Some((q, lookup(m.words@, q).unwrap()))
    } else if sample_imported(v.imports, m.name@, word) && lookup(m.sample_words@, word) is Some {
        Some((q, lookup(m.sample_words@, word).unwrap()))
    } else {
        None
    }
}

/// Word `word` of the user dictionary at `p`.
pub open spec fn user_path(v: Vocab, p: int, word: Seq<char>) -> Option<(Seq<char>, WordView)> {
    let u = v.users[p];
    match lookup(u.words@, word) {
        Some(d) => Some((qualify(u.name@, word), d)),
        None => None,
    }
}

/// A module dictionary, or failing that a user dictionary, called `ns`.
pub open spec fn dictionary_path(v: Vocab, ns: Seq<char>, word: Seq<char>) -> Option<(Seq<char>, WordView)> {
    let mp = position(module_names_of(v.modules), ns);
    if mp >= 0 {
        module_word_path(v, mp, word)
    } else {
        let up = position(user_names_of(v.users), ns);
        if up >= 0 {
            user_path(v, up, word)
        } else {
            None
        }
    }
}

pub open spec fn user_dictionary_path(v: Vocab, ns: Seq<char>, word: Seq<char>) -> Option<(Seq<char>, WordView)> {
    let up = position(user_names_of(v.users), ns);
    if up >= 0 {
        user_path(v, up, word)
    } else {
        None
    }
}

pub open spec fn module_dictionary_path(v: Vocab, ns: Seq<char>, word: Seq<char>) -> Option<(Seq<char>, WordView)> {
    let mp = position(module_names_of(v.modules), ns);
    if mp >= 0 {
        module_word_path(v, mp, word)
    } else {
        None
    }
}

/// What a name resolves to without touching the cache. A bare name
/// resolves as a short name. With one layer: `CORE@W`, else the module or
/// user dictionary of that name. With two: `USER@D@W`, `DICT@CORE@W` or
/// `DICT@M@W` for a module. With three: `DICT@USER@D@W`. Nothing else
/// resolves.
pub open spec fn readonly_resolution(v: Vocab, name: Seq<char>) -> Option<(Seq<char>, WordView)> {
    let parts = path_parts(name);
    let layers = parts.drop_last();
    let word = parts.last();
    if layers.len() == 0 {
        short_resolution(v, spec_to_uppercase(name))
    } else if layers.len() == 1 {
        if layers[0] == core_name() {
            core_path(v, word)
        } else {
            dictionary_path(v, layers[0], word)
        }
    } else if layers.len() == 2 {
        if layers[0] == user_name() {
            user_dictionary_path(v, layers[1], word)
        } else if layers[0] == dict_name() {
            if layers[1] == core_name() {
                core_path(v, word)
            } else {
                module_dictionary_path(v, layers[1], word)
            }
        } else {
            None
        }
    } else if layers.len() == 3 {
        if layers[0] == dict_name() && layers[1] == user_name() {
            user_dictionary_path(v, layers[2], word)
        } else {
            None
        }
    } else {
        None
    }
}

fn is_core(s: &str) -> (r: bool)
    ensures
        r == (s@ == core_name()),
{
    proof {
        reveal_strlit("CORE");
        assert("CORE"@ =~= core_name());
    }
    str_equal(s, "CORE")
}

fn is_user(s: &str) -> (r: bool)
    ensures
        r == (s@ == user_name()),
{
    proof {
        reveal_strlit("USER");
        assert("USER"@ =~= user_name());
    }
    str_equal(s, "USER")
}

fn is_dict(s: &str) -> (r: bool)
    ensures
        r == (s@ == dict_name()),
{
    proof {
        reveal_strlit("DICT");
        assert("DICT"@ =~= dict_name());
    }
    str_equal(s, "DICT")
}

impl Interpreter {
    /// The paths a bare name is ambiguous between.
    pub fn check_ambiguity(&self, name: &str) -> (r: Vec<String>)
        ensures
            r@.map_values(|x: String| x@) == ambiguity(vocab(self), spec_to_uppercase(name@)),
    {
        let upper = to_uppercase(name);
        let u = upper.as_str();
        let ghost up = upper@;
        if find_word(&self.core_vocabulary, u).is_some() {
            proof {
                assert(Seq::<String>::empty().map_values(|x: String| x@) =~= Seq::<Seq<char>>::empty());
            }
            return Vec::new();
        }
        let mut paths: Vec<String> = Vec::new();
        let nm = self.module_vocabulary.len();
        let mut k: usize = 0;
        while k < nm
            invariant
                nm == self.module_vocabulary@.len(),
                0 <= k <= nm,
                u@ == up,
                paths@.map_values(|x: String| x@) == match_names(sample_matches(vocab(self), up, k as int)),
            decreases nm - k,
        {
            let m = &self.module_vocabulary[k];
            let ghost before = paths@;
            if self.is_module_sample_imported(m.name.as_str(), u) && find_word(&m.sample_words, u).is_some() {
                let q = qualified(m.name.as_str(), u);
                paths.push(q);
                proof {
                    assert(paths@.map_values(|x: String| x@) =~= before.map_values(|x: String| x@).push(q@));
                    assert(match_names(sample_matches(vocab(self), up, k + 1)) =~= match_names(
                        sample_matches(vocab(self), up, k as int),
                    ).push(q@));
                }
            }
            k = k + 1;
        }
        let ghost mod_paths = paths@.map_values(|x: String| x@);
        let nu = self.user_dictionaries.len();
        let mut k: usize = 0;
        while k < nu
            invariant
                nu == self.user_dictionaries@.len(),
                0 <= k <= nu,
                u@ == up,
                paths@.map_values(|x: String| x@) == mod_paths + match_names(user_matches(vocab(self), up, k as int)),
            decreases nu - k,
        {
            let d = &self.user_dictionaries[k];
            let ghost before = paths@;
            if find_word(&d.words, u).is_some() {
                let q = qualified(d.name.as_str(), u);
                paths.push(q);
                proof {
                    assert(paths@.map_values(|x: String| x@) =~= before.map_values(|x: String| x@).push(q@));
                    assert(match_names(user_matches(vocab(self), up, k + 1)) =~= match_names(
                        user_matches(vocab(self), up, k as int),
                    ).push(q@));
                    assert(mod_paths + match_names(user_matches(vocab(self), up, k + 1)) =~= (mod_paths
                        + match_names(user_matches(vocab(self), up, k as int))).push(q@));
                }
            } else {
                proof {
                    assert(user_matches(vocab(self), up, k + 1) == user_matches(vocab(self), up, k as int));
                }
            }
            k = k + 1;
        }
        proof {
            assert(up == spec_to_uppercase(name@));
        }
        if paths.len() > 1 {
            paths
        } else {
            proof {
                assert(Seq::<String>::empty().map_values(|x: String| x@) =~= Seq::<Seq<char>>::empty());
            }
            Vec::new()
        }
    }

    fn core_entry(&self, word: &str) -> (r: Option<(String, WordDefinition)>)
        ensures
            resolved_as(r, core_path(vocab(self), word@)),
    {
        match find_word(&self.core_vocabulary, word) {
            Some(p) => Some((String::from_str(word), self.core_vocabulary[p].def.copy())),
            None => None,
        }
    }

    fn module_entry(&self, p: usize, word: &str) -> (r: Option<(String, WordDefinition)>)
        requires
            p < self.module_vocabulary@.len(),
        ensures
            resolved_as(r, module_word_path(vocab(self), p as int, word@)),
    {
        let m = &self.module_vocabulary[p];
        let q = qualified(m.name.as_str(), word);
        if self.is_module_word_imported(m.name.as_str(), word) {
            if let Some(k) = find_word(&m.words, q.as_str()) {
                return Some((q, m.words[k].def.copy()));
            }
        }
        if self.is_module_sample_imported(m.name.as_str(), word) {
            if let Some(k) = find_word(&m.sample_words, word) {
                return Some((q, m.sample_words[k].def.copy()));
            }
        }
        None
    }

    fn user_entry(&self, p: usize, word: &str) -> (r: Option<(String, WordDefinition)>)
        requires
            p < self.user_dictionaries@.len(),
        ensures
            resolved_as(r, user_path(vocab(self), p as int, word@)),
    {
        let d = &self.user_dictionaries[p];
        match find_word(&d.words, word) {
            Some(k) => Some((qualified(d.name.as_str(), word), d.words[k].def.copy())),
            None => None,
        }
    }

    fn user_dictionary_entry(&self, ns: &str, word: &str) -> (r: Option<(String, WordDefinition)>)
        ensures
            resolved_as(r, user_dictionary_path(vocab(self), ns@, word@)),
    {
        match find_user(&self.user_dictionaries, ns) {
            Some(p) => self.user_entry(p, word),
            None => None,
        }
    }

    fn module_dictionary_entry(&self, ns: &str, word: &str) -> (r: Option<(String, WordDefinition)>)
        ensures
            resolved_as(r, module_dictionary_path(vocab(self), ns@, word@)),
    {
        match find_module(&self.module_vocabulary, ns) {
            Some(p) => self.module_entry(p, word),
            None => None,
        }
    }

    /// Resolve a name, bare or qualified, without touching the cache.
    pub fn resolve_word_entry_readonly(&self, name: &str) -> (r: Option<(String, WordDefinition)>)
        ensures
            resolved_as(r, readonly_resolution(vocab(self), name@)),
    {
        let (layers, word) = split_path(name);
        let w = word.as_str();
        let ghost lv = layers@.map_values(|x: String| x@);
        proof {
            assert(lv.len() == layers@.len());
            assert forall|j: int| 0 <= j < layers@.len() implies lv[j] == (#[trigger] layers@[j])@ by {}
        }
        let nl = layers.len();
        if nl == 0 {
            return self.resolve_short_name(name);
        }
        if nl == 1 {
            let ns = layers[0].as_str();
            if is_core(ns) {
                return self.core_entry(w);
            }
            if let Some(p) = find_module(&self.module_vocabulary, ns) {
                return self.module_entry(p, w);
            }
            return self.user_dictionary_entry(ns, w);
        }
        if nl == 2 {
            let first = layers[0].as_str();
            let second = layers[1].as_str();
            if is_user(first) {
                return self.user_dictionary_entry(second, w);
            }
            if is_dict(first) {
                if is_core(second) {
                    return self.core_entry(w);
                }
                return self.module_dictionary_entry(second, w);
            }
            return None;
        }
        if nl == 3 {
            if is_dict(layers[0].as_str()) && is_user(layers[1].as_str()) {
                return self.user_dictionary_entry(layers[2].as_str(), w);
            }
            return None;
        }
        None
    }
}

// ── The resolve cache ────────────────────────────────────────────────────────
pub open spec fn cache_keys(c: Seq<ResolveCacheEntry>) -> Seq<Seq<char>> {
    c.map_values(|e: ResolveCacheEntry| e.key@)
}

/// The cache row for `key`: resolved name, dictionary epoch, registration
/// order.
pub open spec fn cache_get(c: Seq<ResolveCacheEntry>, key: Seq<char>) -> Option<(Seq<char>, u64, u64)> {
    let p = position(cache_keys(c), key);
    if p < 0 {
        None
    } else {
        Some((c[p].resolved_name@, c[p].dictionary_epoch, c[p].registration_order))
    }
}

/// What the cache answers for `key` at the current epoch.
pub open spec fn cache_answer(i: &Interpreter, key: Seq<char>) -> Option<Seq<char>> {
    match cache_get(i.resolve_cache@, key) {
        Some((n, e, _)) => if e == i.dictionary_epoch {
            Some(n)
        } else {
            None
        },
        None => None,
    }
}

/// Every field but the runtime metrics and the resolve cache is the same.
pub open spec fn same_besides_cache(a: &Interpreter, b: &Interpreter) -> bool {
    &&& a.stack == b.stack
    &&& a.consumption_mode == b.consumption_mode
    &&& a.operation_target_mode == b.operation_target_mode
    &&& a.register == b.register
    &&& a.output_buffer == b.output_buffer
    &&& a.dictionary_epoch == b.dictionary_epoch
    &&& a.module_epoch == b.module_epoch
    &&& a.execution_epoch == b.execution_epoch
    &&& a.receipt_recorder == b.receipt_recorder
    &&& a.import_table == b.import_table
    &&& a.granted_capabilities == b.granted_capabilities
    &&& a.max_execution_steps == b.max_execution_steps
    &&& a.execution_step_count == b.execution_step_count
    &&& a.core_vocabulary == b.core_vocabulary
    &&& a.module_vocabulary == b.module_vocabulary
    &&& a.user_dictionaries == b.user_dictionaries
    &&& a.user_words == b.user_words
    &&& a.dependents == b.dependents
    &&& a.dictionary_dependencies == b.dictionary_dependencies
}

/// The metrics after a cache lookup for `key`: a hit or a miss counted
/// when the cache holds the key, nothing otherwise.
pub open spec fn metrics_after_lookup(i: &Interpreter, key: Seq<char>) -> RuntimeMetrics {
    let m = i.runtime_metrics;
    match cache_get(i.resolve_cache@, key) {
        Some((_, e, _)) => if e == i.dictionary_epoch {
            RuntimeMetrics { resolve_cache_hit_count: bumped(m.resolve_cache_hit_count), ..m }
        } else {
            RuntimeMetrics { resolve_cache_miss_count: bumped(m.resolve_cache_miss_count), ..m }
        },
        None => m,
    }
}

proof fn lemma_position_push(names: Seq<Seq<char>>, x: Seq<char>, y: Seq<char>)
    ensures
        position(names.push(x), y) == if position(names, y) >= 0 {
            position(names, y)
        } else if x == y {
            names.len() as int
        } else {
            -1
        },
{
    lemma_position(names, y);
    let t = names.push(x);
    if position(names, y) >= 0 {
        let p = position(names, y);
        assert(first_at(t, y, p));
        lemma_first_unique(t, y, p);
    } else if x == y {
        assert(first_at(t, y, names.len() as int));
        lemma_first_unique(t, y, names.len() as int);
    } else {
        lemma_position(t, y);
        if position(t, y) >= 0 {
            let q = position(t, y);
            assert(t[q] == y);
        }
    }
}

/// Every cache row was stored at an epoch no later than the current one.
pub open spec fn cache_epochs_valid(i: &Interpreter) -> bool {
    forall|j: int| 0 <= j < i.resolve_cache@.len() ==> #[trigger] i.resolve_cache@[j].dictionary_epoch <= i.dictionary_epoch
}

/// Advancing the dictionary epoch invalidates every cached resolution:
/// after a bump (below the counter's ceiling) the cache answers nothing.
pub proof fn law_epoch_bump_invalidates_cache(before: &Interpreter, after: &Interpreter, name: Seq<char>)
    requires
        cache_epochs_valid(before),
        before.dictionary_epoch < u64::MAX,
        after.dictionary_epoch == bumped(before.dictionary_epoch),
        after.resolve_cache == before.resolve_cache,
    ensures
        cache_answer(after, name) is None,
{
    let keys = cache_keys(before.resolve_cache@);
    lemma_position(keys, name);
    if position(keys, name) >= 0 {
        let p = position(keys, name);
        assert(before.resolve_cache@[p].dictionary_epoch <= before.dictionary_epoch);
    }
}

impl Interpreter {
    /// The resolved name the cache holds for `key` at the current dictionary
    /// epoch, counting a hit; a row from an older epoch counts a miss and
    /// answers nothing.
    pub fn lookup_resolve_cache(&mut self, key: &str) -> (r: Option<String>)
        ensures
            same_besides_cache(final(self), old(self)),
            final(self).resolve_cache == old(self).resolve_cache,
            final(self).runtime_metrics == metrics_after_lookup(old(self), key@),
            match cache_answer(old(self), key@) {
                Some(n) => r matches Some(s) && s@ == n,
                None => r is None,
            },
    {
        let ghost keys = cache_keys(self.resolve_cache@);
        let mut i: usize = 0;
        while i < self.resolve_cache.len()
            invariant
                0 <= i <= self.resolve_cache@.len(),
                keys == cache_keys(self.resolve_cache@),
                *self == *old(self),
                forall|j: int| 0 <= j < i ==> keys[j] != key@,
            decreases self.resolve_cache@.len() - i,
        {
            if str_equal(self.resolve_cache[i].key.as_str(), key) {
                proof {
                    assert(first_at(keys, key@, i as int));
                    lemma_first_unique(keys, key@, i as int);
                }
                if self.resolve_cache[i].dictionary_epoch == self.dictionary_epoch {
                    self.runtime_metrics.resolve_cache_hit_count = bump(self.runtime_metrics.resolve_cache_hit_count);
                    return Some(crate::value::copy_string(&self.resolve_cache[i].resolved_name));
                } else {
                    self.runtime_metrics.resolve_cache_miss_count = bump(self.runtime_metrics.resolve_cache_miss_count);
                    return None;
                }
            }
            i = i + 1;
        }
        proof {
            lemma_position(keys, key@);
            if position(keys, key@) >= 0 {
                assert(keys[position(keys, key@)] == key@);
            }
        }
        None
    }

    /// Remember that `key` resolved to `resolved_name`, at the current
    /// dictionary epoch.
    pub fn store_resolve_cache(&mut self, key: &str, resolved_name: &str, registration_order: u64)
        ensures
            same_besides_cache(final(self), old(self)),
            final(self).runtime_metrics == old(self).runtime_metrics,
            forall|k: Seq<char>| #[trigger] cache_get(final(self).resolve_cache@, k) == if k == key@ {
                Some((resolved_name@, old(self).dictionary_epoch, registration_order))
            } else {
                cache_get(old(self).resolve_cache@, k)
            },
            cache_epochs_valid(old(self)) ==> cache_epochs_valid(final(self)),
    {
        let row = ResolveCacheEntry {
            key: String::from_str(key),
            resolved_name: String::from_str(resolved_name),
            dictionary_epoch: self.dictionary_epoch,
            registration_order,
        };
        let ghost c0 = self.resolve_cache@;
        let ghost keys = cache_keys(c0);
        let mut i: usize = 0;
        while i < self.resolve_cache.len()
            invariant
                0 <= i <= self.resolve_cache@.len(),
                self.resolve_cache@ == c0,
                *self == *old(self),
                row.key@ == key@,
                row.resolved_name@ == resolved_name@,
                row.dictionary_epoch == old(self).dictionary_epoch,
                row.registration_order == registration_order,
                keys == cache_keys(c0),
                forall|j: int| 0 <= j < i ==> keys[j] != key@,
            decreases self.resolve_cache@.len() - i,
        {
            if str_equal(self.resolve_cache[i].key.as_str(), key) {
                proof {
                    assert(first_at(keys, key@, i as int));
                    lemma_first_unique(keys, key@, i as int);
                }
                self.resolve_cache.set(i, row);
                proof {
                    let c1 = self.resolve_cache@;
                    assert(c1 == c0.update(i as int, row));
                    assert(row.key@ == key@);
                    assert forall|j: int| 0 <= j < c1.len() implies cache_keys(c1)[j] == keys[j] by {
                        if j == i {
                            assert(keys[j] == key@);
                        }
                    }
                    assert(cache_keys(c1) =~= keys);
                    assert forall|k: Seq<char>| #[trigger] cache_get(c1, k) == if k == key@ {
                        Some((resolved_name@, old(self).dictionary_epoch, registration_order))
                    } else {
                        cache_get(c0, k)
                    } by {
                        lemma_position(keys, k);
                    }
                }
                return;
            }
            i = i + 1;
        }
        self.resolve_cache.push(row);
        proof {
            let c1 = self.resolve_cache@;
            assert(cache_keys(c1) =~= keys.push(key@));
            lemma_position(keys, key@);
            if position(keys, key@) >= 0 {
                assert(keys[position(keys, key@)] == key@);
            }
            assert forall|k: Seq<char>| #[trigger] cache_get(c1, k) == if k == key@ {
                Some((resolved_name@, old(self).dictionary_epoch, registration_order))
            } else {
                cache_get(c0, k)
            } by {
                lemma_position_push(keys, key@, k);
                lemma_position(keys, k);
            }
        }
    }
}

/// What a name the cache remembers denotes now, looked up directly: a core
/// word for a bare name; for `D@W`, the user dictionary `D`'s word, else
/// module `D`'s word or sample word, imported or not.
pub open spec fn cached_target(v: Vocab, cached: Seq<char>) -> Option<(Seq<char>, WordView)> {
    let parts = path_parts(cached);
    let layers = parts.drop_last();
    let word = parts.last();
    if layers.len() == 0 {
        core_path(v, word)
    } else if layers.len() == 1 {
        let ns = layers[0];
        let q = qualify(ns, word);
        let up = position(user_names_of(v.users), ns);
        if up >= 0 && lookup(v.users[up].words@, word) is Some {
            Some((q, lookup(v.users[up].words@, word).unwrap()))
        } else {
            let mp = position(module_names_of(v.modules), ns);
            if mp >= 0 && lookup(v.modules[mp].words@, q) is Some {
                Some((q, lookup(v.modules[mp].words@, q).unwrap()))
            } else if mp >= 0 && lookup(v.modules[mp].sample_words@, word) is Some {
                Some((q, lookup(v.modules[mp].sample_words@, word).unwrap()))
            } else {
                None
            }
        }
    } else {
        None
    }
}

/// What `resolve_word_entry` answers: the cached name's target when the
/// cache answers and the target still exists, otherwise a fresh resolution.
pub open spec fn entry_resolution(i: &Interpreter, name: Seq<char>) -> Option<(Seq<char>, WordView)> {
    match cache_answer(i, name) {
        Some(c) => match cached_target(vocab(i), c) {
            Some(t) => Some(t),
            None => readonly_resolution(vocab(i), name),
        },
        None => readonly_resolution(vocab(i), name),
    }
}

/// The answer came from the cache.
pub open spec fn served_from_cache(i: &Interpreter, name: Seq<char>) -> bool {
    match cache_answer(i, name) {
        Some(c) => cached_target(vocab(i), c) is Some,
        None => false,
    }
}

impl Interpreter {
    fn cached_entry(&self, cached: &str) -> (r: Option<(String, WordDefinition)>)
        ensures
            resolved_as(r, cached_target(vocab(self), cached@)),
    {
        let (layers, word) = split_path(cached);
        let w = word.as_str();
        proof {
            assert(layers@.map_values(|x: String| x@).len() == layers@.len());
        }
        if layers.len() == 0 {
            return self.core_entry(w);
        }
        if layers.len() == 1 {
            let ns = layers[0].as_str();
            proof {
                assert(layers@.map_values(|x: String| x@)[0] == layers@[0]@);
            }
            let q = qualified(ns, w);
            if let Some(p) = find_user(&self.user_dictionaries, ns) {
                if let Some(k) = find_word(&self.user_dictionaries[p].words, w) {
                    return Some((q, self.user_dictionaries[p].words[k].def.copy()));
                }
            }
            if let Some(p) = find_module(&self.module_vocabulary, ns) {
                let m = &self.module_vocabulary[p];
                if let Some(k) = find_word(&m.words, q.as_str()) {
                    return Some((q, m.words[k].def.copy()));
                }
                if let Some(k) = find_word(&m.sample_words, w) {
                    return Some((q, m.sample_words[k].def.copy()));
                }
            }
            return None;
        }
        None
    }

    /// Resolve a name through the cache: a cached name whose target still
    /// exists answers at once; otherwise the name is resolved afresh and a
    /// success is remembered.
    pub fn resolve_word_entry(&mut self, name: &str) -> (r: Option<(String, WordDefinition)>)
        ensures
            resolved_as(r, entry_resolution(old(self), name@)),
            same_besides_cache(final(self), old(self)),
            final(self).runtime_metrics == metrics_after_lookup(old(self), name@),
            served_from_cache(old(self), name@) ==> final(self).resolve_cache == old(self).resolve_cache,
            cache_epochs_valid(old(self)) ==> cache_epochs_valid(final(self)),
            !served_from_cache(old(self), name@) ==> forall|k: Seq<char>| #[trigger] cache_get(final(self).resolve_cache@, k)
                == match readonly_resolution(vocab(old(self)), name@) {
                    Some((n, d)) => if k == name@ {
                        Some((n, old(self).dictionary_epoch, d.registration_order))
                    } else {
                        cache_get(old(self).resolve_cache@, k)
                    },
                    None => cache_get(old(self).resolve_cache@, k),
                },
    {
        let cached = self.lookup_resolve_cache(name);
        proof {
            assert(vocab(self) == vocab(old(self)));
        }
        if let Some(c) = cached {
            let hit = self.cached_entry(c.as_str());
            if hit.is_some() {
                return hit;
            }
        }
        let resolved = self.resolve_word_entry_readonly(name);
        match &resolved {
            Some((n, d)) => {
                self.store_resolve_cache(name, n.as_str(), d.registration_order);
            },
            None => {},
        }
        resolved
    }

    /// The definition a name denotes, when it denotes one.
    pub fn resolve_word(&self, name: &str) -> (r: Option<WordDefinition>)
        ensures
            match readonly_resolution(vocab(self), name@) {
                Some((_, d)) => r matches Some(x) && x@ == d,
                None => r is None,
            },
    {
        match self.resolve_word_entry_readonly(name) {
            Some((_, d)) => Some(d),
            None => None,
        }
    }

    /// Whether a name denotes a word.
    pub fn word_exists(&self, name: &str) -> (r: bool)
        ensures
            r == (readonly_resolution(vocab(self), name@) is Some),
    {
        self.resolve_word(name).is_some()
    }
}

} // verus!
