use ajisai::dictionary::{ExecutionLine, ModuleDictionary, NamedWord, UserDictionary, WordDefinition};
use ajisai::imports::ImportedModule;
use ajisai::interpreter::Interpreter;
use ajisai::resolve::split_path;
use ajisai::value::Token;
use ajisai::vocabulary::ensure_module_dictionary;

fn sym(s: &str) -> Token {
    Token::Symbol(s.to_string())
}

fn num(s: &str) -> Token {
    Token::Number(s.to_string())
}

fn word(name: &str, body: Vec<Token>, order: u64) -> NamedWord {
    NamedWord {
        name: name.to_string(),
        def: WordDefinition {
            lines: vec![ExecutionLine { body_tokens: body }],
            is_builtin: false,
            description: None,
            dependencies: Vec::new(),
            namespace: None,
            registration_order: order,
        },
    }
}

fn builtin(name: &str) -> NamedWord {
    NamedWord {
        name: name.to_string(),
        def: WordDefinition {
            lines: Vec::new(),
            is_builtin: true,
            description: None,
            dependencies: Vec::new(),
            namespace: None,
            registration_order: 0,
        },
    }
}

/// An interpreter whose `DEMO` dictionary holds `words`.
fn with_demo(words: Vec<NamedWord>) -> Interpreter {
    let mut interp = Interpreter::new();
    interp.user_dictionaries.push(UserDictionary { name: "DEMO".to_string(), words });
    interp
}

fn define_word(interp: &mut Interpreter, name: &str, body: Vec<Token>) {
    let order = interp.user_dictionaries.iter().map(|d| d.words.len() as u64).sum::<u64>() + 1;
    match interp.user_dictionaries.iter_mut().find(|d| d.name == "DEMO") {
        Some(d) => d.words.push(word(name, body, order)),
        None => interp
            .user_dictionaries
            .push(UserDictionary { name: "DEMO".to_string(), words: vec![word(name, body, order)] }),
    }
}

#[test]
fn redundancy_layer_tests_resolve_cache_hit_increments_metrics() {
    let mut interp = Interpreter::new();
    define_word(&mut interp, "CACHE-HIT", vec![Token::VectorStart, num("42"), Token::VectorEnd]);

    let _ = interp.resolve_word_entry("CACHE-HIT");
    let before = interp.runtime_metrics.resolve_cache_hit_count;
    let _ = interp.resolve_word_entry("CACHE-HIT");

    assert!(interp.runtime_metrics.resolve_cache_hit_count > before);
}

#[test]
fn redundancy_layer_tests_dictionary_epoch_change_invalidates_resolve_cache() {
    let mut interp = Interpreter::new();
    define_word(&mut interp, "CACHE-INVALIDATE", vec![Token::VectorStart, num("1"), Token::VectorEnd]);

    let _ = interp.resolve_word_entry("CACHE-INVALIDATE");
    let before = interp.runtime_metrics.resolve_cache_invalidation_count;
    interp.bump_dictionary_epoch();

    assert!(interp.runtime_metrics.resolve_cache_invalidation_count > before);
}

#[test]
fn a_stale_cache_row_counts_a_miss_and_resolves_afresh() {
    let mut interp = with_demo(vec![word("SQ", vec![sym("DUP"), sym("MUL")], 1)]);
    let first = interp.resolve_word_entry("sq").unwrap();
    assert_eq!(first.0, "DEMO@SQ");
    interp.bump_dictionary_epoch();
    let again = interp.resolve_word_entry("sq").unwrap();
    assert_eq!(again.0, "DEMO@SQ");
    assert_eq!(interp.runtime_metrics.resolve_cache_miss_count, 1);
    assert_eq!(interp.runtime_metrics.resolve_cache_hit_count, 0);
}

#[test]
fn split_path_upper_cases_each_layer() {
    let (layers, w) = split_path("dict@user@demo@sq");
    assert_eq!(layers, vec!["DICT", "USER", "DEMO"]);
    assert_eq!(w, "SQ");
    let (none, bare) = split_path("add");
    assert!(none.is_empty());
    assert_eq!(bare, "ADD");
}

#[test]
fn a_core_word_takes_precedence_over_a_user_word() {
    let mut interp = with_demo(vec![word("ADD", vec![sym("SUB")], 1)]);
    interp.core_vocabulary.push(builtin("ADD"));
    let (name, def) = interp.resolve_word_entry_readonly("add").unwrap();
    assert_eq!(name, "ADD");
    assert!(def.is_builtin);
    assert_eq!(interp.resolve_word_entry_readonly("core@add").unwrap().0, "ADD");
    assert_eq!(interp.resolve_word_entry_readonly("demo@add").unwrap().0, "DEMO@ADD");
    assert_eq!(interp.resolve_word_entry_readonly("user@demo@add").unwrap().0, "DEMO@ADD");
    assert_eq!(interp.resolve_word_entry_readonly("dict@user@demo@add").unwrap().0, "DEMO@ADD");
    assert!(interp.resolve_word_entry_readonly("a@b@c@d@add").is_none());
}

#[test]
fn the_earliest_registered_user_word_wins() {
    let mut interp = with_demo(vec![word("SQ", vec![sym("DUP")], 5)]);
    interp.user_dictionaries.push(UserDictionary { name: "MATHS".to_string(), words: vec![word("SQ", vec![sym("MUL")], 2)] });
    assert_eq!(interp.resolve_short_name("sq").unwrap().0, "MATHS@SQ");
    assert_eq!(interp.check_ambiguity("sq"), vec!["DEMO@SQ", "MATHS@SQ"]);
    interp.core_vocabulary.push(builtin("SQ"));
    assert!(interp.check_ambiguity("sq").is_empty());
}

#[test]
fn module_words_need_an_import() {
    let mut interp = Interpreter::new();
    ensure_module_dictionary(&mut interp, "JSON").unwrap();
    assert_eq!(interp.module_epoch, 1);
    assert!(interp.resolve_word_entry_readonly("PARSE").is_none());
    assert!(interp.resolve_word_entry_readonly("JSON@PARSE").is_none());
    interp.import_table.set(
        "JSON",
        ImportedModule { import_all_public: false, imported_words: vec!["PARSE".to_string()], imported_samples: Vec::new() },
    );
    let (name, def) = interp.resolve_word_entry_readonly("parse").unwrap();
    assert_eq!(name, "JSON@PARSE");
    assert!(def.is_builtin);
    assert_eq!(interp.resolve_word_entry_readonly("dict@json@parse").unwrap().0, "JSON@PARSE");
    assert!(interp.resolve_word_entry_readonly("STRINGIFY").is_none());
    assert!(interp.word_exists("json@parse"));
    assert!(!interp.word_exists("json@stringify"));
}

#[test]
fn loading_a_module_twice_changes_nothing_and_unknown_modules_are_refused() {
    let mut interp = Interpreter::new();
    ensure_module_dictionary(&mut interp, "JSON").unwrap();
    ensure_module_dictionary(&mut interp, "JSON").unwrap();
    assert_eq!(interp.module_vocabulary.len(), 1);
    assert_eq!(interp.module_epoch, 1);
    assert!(interp.module_vocabulary[0].words.iter().any(|w| w.name == "JSON@PARSE"));
    assert!(ensure_module_dictionary(&mut interp, "NOPE").is_err());
}

#[test]
fn a_sample_word_and_a_user_word_of_one_name_are_ambiguous() {
    let mut interp = with_demo(vec![word("HELLO", vec![num("1")], 1)]);
    interp.module_vocabulary.push(ModuleDictionary {
        name: "ALGO".to_string(),
        words: Vec::new(),
        sample_words: vec![word("HELLO", vec![num("2")], 0)],
    });
    interp.import_table.set(
        "ALGO",
        ImportedModule { import_all_public: true, imported_words: Vec::new(), imported_samples: Vec::new() },
    );
    assert!(interp.resolve_short_name("hello").is_none());
    assert_eq!(interp.check_ambiguity("HELLO"), vec!["ALGO@HELLO", "DEMO@HELLO"]);
    assert_eq!(interp.resolve_word_entry_readonly("algo@hello").unwrap().0, "ALGO@HELLO");
}

#[test]
fn rebuild_records_who_calls_whom() {
    let mut interp = with_demo(vec![word("SQ", vec![sym("DUP"), sym("MUL")], 1), word("QUAD", vec![sym("SQ"), sym("SQ")], 2)]);
    interp.user_dictionaries.push(UserDictionary { name: "LIB".to_string(), words: vec![word("CUBE", vec![sym("SQ"), sym("DUP")], 3)] });
    interp.core_vocabulary.push(builtin("DUP"));
    interp.core_vocabulary.push(builtin("MUL"));
    interp.rebuild_dependencies().unwrap();

    let demo = &interp.user_dictionaries[0];
    assert!(demo.words[0].def.dependencies.is_empty());
    assert_eq!(demo.words[1].def.dependencies, vec!["DEMO@SQ"]);
    assert_eq!(interp.user_dictionaries[1].words[0].def.dependencies, vec!["DEMO@SQ"]);

    let mut callers = interp.collect_dependents("DEMO@SQ");
    callers.sort();
    assert_eq!(callers, vec!["DEMO@QUAD", "LIB@CUBE"]);
    assert!(interp.collect_dependents("DEMO@QUAD").is_empty());

    assert_eq!(interp.dictionary_dependencies.len(), 2);
    let lib = interp.dictionary_dependencies.iter().find(|d| d.name == "LIB").unwrap();
    assert_eq!(lib.depends_on, vec!["DEMO"]);
    let demo_row = interp.dictionary_dependencies.iter().find(|d| d.name == "DEMO").unwrap();
    assert_eq!(demo_row.depended_by, vec!["LIB"]);
    assert!(demo_row.depends_on.is_empty());
    assert_eq!(interp.user_words.len(), 2);
    assert_eq!(interp.user_words[1].name, "QUAD");
}

#[test]
fn listing_a_user_dictionary_in_any_case() {
    let interp = with_demo(vec![word("SQ", vec![sym("DUP")], 1)]);
    let words = interp.user_dictionary_words("demo");
    assert_eq!(words.len(), 1);
    assert_eq!(words[0].name, "SQ");
    assert!(interp.user_dictionary_words("other").is_empty());
}

fn user_word(name: &str, body: Vec<ajisai::value::Token>, order: u64) -> ajisai::dictionary::NamedWord {
    ajisai::dictionary::NamedWord {
        name: name.to_string(),
        def: ajisai::dictionary::WordDefinition {
            lines: vec![ajisai::dictionary::ExecutionLine { body_tokens: body }],
            is_builtin: false,
            description: None,
            dependencies: Vec::new(),
            namespace: None,
            registration_order: order,
        },
    }
}

#[test]
fn rebuild_records_each_call_and_its_inverse() {
    let mut interp = ajisai::interpreter::Interpreter::new();
    interp.user_dictionaries.push(ajisai::dictionary::UserDictionary {
        name: "LIB".to_string(),
        words: vec![user_word("C", vec![ajisai::value::Token::Number("1".to_string())], 1)],
    });
    interp.user_dictionaries.push(ajisai::dictionary::UserDictionary {
        name: "DEMO".to_string(),
        words: vec![
            user_word("A", vec![ajisai::value::Token::Symbol("LIB@C".to_string())], 2),
            user_word("B", vec![ajisai::value::Token::Number("2".to_string())], 3),
        ],
    });
    interp.rebuild_dependencies().unwrap();
    let a = &interp.user_dictionaries[1].words[0];
    assert_eq!(a.def.dependencies, vec!["LIB@C".to_string()]);
    assert!(interp.user_dictionaries[1].words[1].def.dependencies.is_empty());
    assert_eq!(interp.collect_dependents("LIB@C"), vec!["DEMO@A".to_string()]);
    assert!(interp.collect_dependents("DEMO@B").is_empty());
    let demo = interp.dictionary_dependencies.iter().find(|d| d.name == "DEMO").unwrap();
    assert_eq!(demo.depends_on, vec!["LIB".to_string()]);
    let lib = interp.dictionary_dependencies.iter().find(|d| d.name == "LIB").unwrap();
    assert_eq!(lib.depended_by, vec!["DEMO".to_string()]);
    assert!(lib.depends_on.is_empty());
}
