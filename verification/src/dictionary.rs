//! The vocabulary a name resolves against: the core words, the dictionaries
//! of imported modules (their words under `MODULE@WORD`, their sample words
//! under the bare name) and the user dictionaries, with the definitions they
//! hold.
use crate::error::AjisaiError;
use crate::value::{copy_string, copy_tokens, tokens_view, Token, TokenView};
use vstd::prelude::*;

verus! {

/// One line of a word's body.
pub struct ExecutionLine {
    pub body_tokens: Vec<Token>,
}

/// A word's definition.
pub struct WordDefinition {
    pub lines: Vec<ExecutionLine>,
    /// A builtin is run by the interpreter itself, not from `lines`.
    pub is_builtin: bool,
    pub description: Option<String>,
    /// The qualified names of the non-builtin words the body calls.
    pub dependencies: Vec<String>,
    /// The module or dictionary the word belongs to.
    pub namespace: Option<String>,
    /// When the word was registered; earlier wins among equal short names.
    pub registration_order: u64,
}

pub struct WordView {
    pub lines: Seq<Seq<TokenView>>,
    pub is_builtin: bool,
    pub description: Option<Seq<char>>,
    pub dependencies: Seq<Seq<char>>,
    pub namespace: Option<Seq<char>>,
    pub registration_order: u64,
}

pub open spec fn lines_view(lines: Seq<ExecutionLine>) -> Seq<Seq<TokenView>> {
    lines.map_values(|l: ExecutionLine| tokens_view(l.body_tokens@))
}

pub open spec fn strings_view(s: Seq<String>) -> Seq<Seq<char>> {
    s.map_values(|x: String| x@)
}

pub open spec fn opt_string_view(s: Option<String>) -> Option<Seq<char>> {
    match s {
        Some(x) => Some(x@),
        None => None,
    }
}

impl View for WordDefinition {
    type V = WordView;

    open spec fn view(&self) -> WordView {
        WordView {
            lines: lines_view(self.lines@),
            is_builtin: self.is_builtin,
            description: opt_string_view(self.description),
            dependencies: strings_view(self.dependencies@),
            namespace: opt_string_view(self.namespace),
            registration_order: self.registration_order,
        }
    }
}

/// A definition under its name.
pub struct NamedWord {
    pub name: String,
    pub def: WordDefinition,
}

/// A module's dictionary: its words under their qualified names, its sample
/// words under their short names.
pub struct ModuleDictionary {
    pub name: String,
    pub words: Vec<NamedWord>,
    pub sample_words: Vec<NamedWord>,
}

/// A user dictionary of defined words.
pub struct UserDictionary {
    pub name: String,
    pub words: Vec<NamedWord>,
}

/// A remembered resolution: `key` resolved to `resolved_name` while the
/// dictionary epoch was `dictionary_epoch`.
pub struct ResolveCacheEntry {
    pub key: String,
    pub resolved_name: String,
    pub dictionary_epoch: u64,
    pub registration_order: u64,
}

/// The words whose bodies call `word`.
pub struct DependentsEntry {
    pub word: String,
    pub dependents: Vec<String>,
}

/// The dictionaries `name` calls into and is called from.
pub struct DictionaryDependencyInfo {
    pub name: String,
    pub depends_on: Vec<String>,
    pub depended_by: Vec<String>,
}

/// The names of some named things, in order.
pub open spec fn word_names(ws: Seq<NamedWord>) -> Seq<Seq<char>> {
    ws.map_values(|w: NamedWord| w.name@)
}

pub open spec fn module_names_of(ms: Seq<ModuleDictionary>) -> Seq<Seq<char>> {
    ms.map_values(|m: ModuleDictionary| m.name@)
}

pub open spec fn user_names_of(us: Seq<UserDictionary>) -> Seq<Seq<char>> {
    us.map_values(|u: UserDictionary| u.name@)
}

/// `p` is the first position of `x` in `names`.
pub open spec fn first_at(names: Seq<Seq<char>>, x: Seq<char>, p: int) -> bool {
    0 <= p < names.len() && names[p] == x && forall|j: int| 0 <= j < p ==> names[j] != x
}

/// The first position of `x` in `names`, or -1.
pub open spec fn position(names: Seq<Seq<char>>, x: Seq<char>) -> int {
    if exists|p: int| first_at(names, x, p) {
        choose|p: int| first_at(names, x, p)
    } else {
        -1
    }
}

pub proof fn lemma_position(names: Seq<Seq<char>>, x: Seq<char>)
    ensures
        position(names, x) >= 0 ==> first_at(names, x, position(names, x)),
        position(names, x) < 0 ==> forall|j: int| 0 <= j < names.len() ==> names[j] != x,
        -1 <= position(names, x) < names.len(),
{
    if !exists|p: int| first_at(names, x, p) {
        assert forall|j: int| 0 <= j < names.len() implies names[j] != x by {
            if names[j] == x {
                lemma_first_exists(names, x, j);
            }
        }
    }
}

proof fn lemma_first_exists(names: Seq<Seq<char>>, x: Seq<char>, j: int)
    requires
        0 <= j < names.len(),
        names[j] == x,
    ensures
        exists|p: int| first_at(names, x, p),
    decreases j,
{
    if forall|k: int| 0 <= k < j ==> names[k] != x {
        assert(first_at(names, x, j));
    } else {
        let k = choose|k: int| 0 <= k < j && names[k] == x;
        lemma_first_exists(names, x, k);
    }
}

pub proof fn lemma_first_unique(names: Seq<Seq<char>>, x: Seq<char>, p: int)
    requires
        first_at(names, x, p),
    ensures
        position(names, x) == p,
{
    let q = choose|q: int| first_at(names, x, q);
    assert(first_at(names, x, q));
    if q < p {
        assert(names[q] != x);
    } else if p < q {
        assert(names[p] != x);
    }
}

/// The definition under `key`, the first one where names repeat.
pub open spec fn lookup(ws: Seq<NamedWord>, key: Seq<char>) -> Option<WordView> {
    let p = position(word_names(ws), key);
    if p < 0 {
        None
    } else {
        Some(ws[p].def@)
    }
}

/// The position of `key` among the names of `ws`.
pub fn find_word(ws: &Vec<NamedWord>, key: &str) -> (r: Option<usize>)
    ensures
        match r {
            Some(p) => p as int == position(word_names(ws@), key@) && p < ws@.len(),
            None => position(word_names(ws@), key@) == -1,
        },
{
    let ghost names = word_names(ws@);
    let mut i: usize = 0;
    while i < ws.len()
        invariant
            0 <= i <= ws@.len(),
            names == word_names(ws@),
            forall|j: int| 0 <= j < i ==> names[j] != key@,
        decreases ws@.len() - i,
    {
        if crate::text::str_equal(ws[i].name.as_str(), key) {
            proof {
                assert(first_at(names, key@, i as int));
                lemma_first_unique(names, key@, i as int);
            }
            return Some(i);
        }
        i = i + 1;
    }
    proof {
        lemma_position(names, key@);
        if position(names, key@) >= 0 {
            let p = position(names, key@);
            assert(names[p] == key@);
        }
    }
    None
}

/// The position of the module dictionary called `name`.
pub fn find_module(ms: &Vec<ModuleDictionary>, name: &str) -> (r: Option<usize>)
    ensures
        match r {
            Some(p) => p as int == position(module_names_of(ms@), name@) && p < ms@.len(),
            None => position(module_names_of(ms@), name@) == -1,
        },
{
    let ghost names = module_names_of(ms@);
    let mut i: usize = 0;
    while i < ms.len()
        invariant
            0 <= i <= ms@.len(),
            names == module_names_of(ms@),
            forall|j: int| 0 <= j < i ==> names[j] != name@,
        decreases ms@.len() - i,
    {
        if crate::text::str_equal(ms[i].name.as_str(), name) {
            proof {
                assert(first_at(names, name@, i as int));
                lemma_first_unique(names, name@, i as int);
            }
            return Some(i);
        }
        i = i + 1;
    }
    proof {
        lemma_position(names, name@);
        if position(names, name@) >= 0 {
            let p = position(names, name@);
            assert(names[p] == name@);
        }
    }
    None
}

/// The position of the user dictionary called `name`.
pub fn find_user(us: &Vec<UserDictionary>, name: &str) -> (r: Option<usize>)
    ensures
        match r {
            Some(p) => p as int == position(user_names_of(us@), name@) && p < us@.len(),
            None => position(user_names_of(us@), name@) == -1,
        },
{
    let ghost names = user_names_of(us@);
    let mut i: usize = 0;
    while i < us.len()
        invariant
            0 <= i <= us@.len(),
            names == user_names_of(us@),
            forall|j: int| 0 <= j < i ==> names[j] != name@,
        decreases us@.len() - i,
    {
        if crate::text::str_equal(us[i].name.as_str(), name) {
            proof {
                assert(first_at(names, name@, i as int));
                lemma_first_unique(names, name@, i as int);
            }
            return Some(i);
        }
        i = i + 1;
    }
    proof {
        lemma_position(names, name@);
        if position(names, name@) >= 0 {
            let p = position(names, name@);
            assert(names[p] == name@);
        }
    }
    None
}

pub fn copy_strings(v: &Vec<String>) -> (r: Vec<String>)
    ensures
        strings_view(r@) == strings_view(v@),
{
    let mut out: Vec<String> = Vec::new();
    let mut i: usize = 0;
    while i < v.len()
        invariant
            0 <= i <= v.len(),
            out@.len() == i,
            forall|j: int| 0 <= j < i ==> (#[trigger] out@[j])@ == v@[j]@,
        decreases v.len() - i,
    {
        out.push(copy_string(&v[i]));
        i = i + 1;
    }
    proof {
        assert(strings_view(out@) =~= strings_view(v@));
    }
    out
}

fn copy_opt_string(s: &Option<String>) -> (r: Option<String>)
    ensures
        opt_string_view(r) == opt_string_view(*s),
{
    match s {
        Some(x) => Some(copy_string(x)),
        None => None,
    }
}

pub fn copy_lines(v: &Vec<ExecutionLine>) -> (r: Vec<ExecutionLine>)
    ensures
        lines_view(r@) == lines_view(v@),
{
    let mut out: Vec<ExecutionLine> = Vec::new();
    let mut i: usize = 0;
    while i < v.len()
        invariant
            0 <= i <= v.len(),
            out@.len() == i,
            forall|j: int| 0 <= j < i ==> tokens_view((#[trigger] out@[j]).body_tokens@) == tokens_view(
                v@[j].body_tokens@,
            ),
        decreases v.len() - i,
    {
        out.push(ExecutionLine { body_tokens: copy_tokens(&v[i].body_tokens) });
        i = i + 1;
    }
    proof {
        assert(lines_view(out@) =~= lines_view(v@));
    }
    out
}

impl WordDefinition {
    /// An independent copy with the same view.
    pub fn copy(&self) -> (r: WordDefinition)
        ensures
            r@ == self@,
    {
        WordDefinition {
            lines: copy_lines(&self.lines),
            is_builtin: self.is_builtin,
            description: copy_opt_string(&self.description),
            dependencies: copy_strings(&self.dependencies),
            namespace: copy_opt_string(&self.namespace),
            registration_order: self.registration_order,
        }
    }
}

// ── Sample definitions ───────────────────────────────────────────────────────
/// The state of splitting a body at its line breaks after `n` tokens: the
/// finished non-empty lines and the line being read.
pub open spec fn lines_upto(tokens: Seq<Token>, n: int) -> (Seq<Seq<TokenView>>, Seq<TokenView>)
    decreases n,
{
    if n <= 0 {
        (Seq::empty(), Seq::empty())
    } else {
        let (done, cur) = lines_upto(tokens, n - 1);
        if tokens[n - 1] is LineBreak {
            if cur.len() > 0 {
                (done.push(cur), Seq::empty())
            } else {
                (done, cur)
            }
        } else {
            (done, cur.push(crate::value::token_view(tokens[n - 1])))
        }
    }
}

/// The non-empty lines of a body, split at its line breaks.
pub open spec fn body_lines(tokens: Seq<Token>) -> Seq<Seq<TokenView>> {
    let (done, cur) = lines_upto(tokens, tokens.len() as int);
    if cur.len() > 0 {
        done.push(cur)
    } else {
        done
    }
}

/// Split a sample word's body into its lines; an empty body is refused.
pub fn parse_sample_definition_body(tokens: &[Token]) -> (r: Result<Vec<ExecutionLine>, AjisaiError>)
    ensures
        body_lines(tokens@).len() == 0 ==> (r matches Err(AjisaiError::Message(m)) && m@
            == "Sample word definition cannot be empty"@),
        body_lines(tokens@).len() > 0 ==> (r matches Ok(lines) && lines_view(lines@) == body_lines(
            tokens@,
        )),
{
    let mut lines: Vec<ExecutionLine> = Vec::new();
    let mut current: Vec<Token> = Vec::new();
    let mut i: usize = 0;
    while i < tokens.len()
        invariant
            0 <= i <= tokens@.len(),
            lines_view(lines@) == lines_upto(tokens@, i as int).0,
            tokens_view(current@) == lines_upto(tokens@, i as int).1,
        decreases tokens@.len() - i,
    {
        let ghost before = lines@;
        match &tokens[i] {
            Token::LineBreak => {
                if current.len() > 0 {
                    let line = ExecutionLine { body_tokens: current };
                    lines.push(line);
                    current = Vec::new();
                    proof {
                        assert(lines_view(lines@) =~= lines_view(before).push(tokens_view(line.body_tokens@)));
                        assert(tokens_view(current@) =~= Seq::<TokenView>::empty());
                    }
                }
            },
            t => {
                let ghost cur_before = current@;
                current.push(crate::value::copy_token(t));
                proof {
                    assert(tokens_view(current@) =~= tokens_view(cur_before).push(
                        crate::value::token_view(tokens@[i as int]),
                    ));
                }
            },
        }
        i = i + 1;
    }
    if current.len() > 0 {
        let ghost before = lines@;
        let line = ExecutionLine { body_tokens: current };
        lines.push(line);
        proof {
            assert(lines_view(lines@) =~= lines_view(before).push(tokens_view(line.body_tokens@)));
        }
    }
    if lines.len() == 0 {
        proof {
            assert(lines_view(lines@).len() == 0);
        }
        return Err(AjisaiError::message("Sample word definition cannot be empty"));
    }
    Ok(lines)
}

} // verus!
