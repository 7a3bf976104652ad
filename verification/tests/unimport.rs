use ajisai::dictionary::{ExecutionLine, NamedWord, UserDictionary, WordDefinition};
use ajisai::error::AjisaiError;
use ajisai::interpreter::Interpreter;
use ajisai::module_ops::{op_import, op_import_only};
use ajisai::unimport::{op_unimport, op_unimport_only};
use ajisai::value::{Token, Value};

fn import(interp: &mut Interpreter, module: &str) {
    interp.stack.push(Value::from_string(module));
    op_import(interp).unwrap();
}

/// Define a `DEMO` word whose body calls `callee`, and rebuild the
/// dependency indexes as a definition does.
fn define_caller(interp: &mut Interpreter, name: &str, callee: &str) {
    let def = WordDefinition {
        lines: vec![ExecutionLine { body_tokens: vec![Token::Symbol(callee.to_string())] }],
        is_builtin: false,
        description: None,
        dependencies: Vec::new(),
        namespace: None,
        registration_order: 1,
    };
    interp.user_dictionaries.push(UserDictionary {
        name: "DEMO".to_string(),
        words: vec![NamedWord { name: name.to_string(), def }],
    });
    interp.rebuild_dependencies().unwrap();
}

fn json_entry(interp: &Interpreter) -> Option<&ajisai::imports::ImportedModule> {
    interp.import_table.get("JSON")
}

#[test]
fn unimport_hides_unreferenced_module_words() {
    let mut interp = Interpreter::new();
    import(&mut interp, "json");
    assert!(interp.resolve_word_entry_readonly("JSON@PARSE").is_some());

    interp.stack.push(Value::from_string("json"));
    op_unimport(&mut interp).unwrap();

    assert!(interp.resolve_word_entry_readonly("JSON@PARSE").is_none());
    assert!(interp.module_vocabulary.iter().any(|m| m.name == "JSON"));
    assert!(json_entry(&interp).is_none());
}

#[test]
fn unimport_keeps_module_words_referenced_by_user_words() {
    let mut interp = Interpreter::new();
    import(&mut interp, "json");
    define_caller(&mut interp, "USE-PARSE", "JSON@PARSE");

    interp.stack.push(Value::from_string("json"));
    op_unimport(&mut interp).unwrap();

    assert!(interp.resolve_word_entry_readonly("JSON@PARSE").is_some());
    assert!(interp.resolve_word_entry_readonly("JSON@STRINGIFY").is_none());
    let imported = json_entry(&interp).unwrap();
    assert!(!imported.import_all_public);
    assert!(imported.imported_words.iter().any(|w| w == "PARSE"));
    assert!(!imported.imported_words.iter().any(|w| w == "STRINGIFY"));
}

#[test]
fn unimport_only_hides_selected_unreferenced_words_after_full_import() {
    let mut interp = Interpreter::new();
    import(&mut interp, "json");

    interp.stack.push(Value::from_string("json"));
    interp.stack.push(Value::from_vector(vec![Value::from_string("stringify")]));
    op_unimport_only(&mut interp).unwrap();

    assert!(interp.resolve_word_entry_readonly("JSON@PARSE").is_some());
    assert!(interp.resolve_word_entry_readonly("JSON@STRINGIFY").is_none());
    assert!(!json_entry(&interp).unwrap().import_all_public);
}

#[test]
fn unimport_only_rejects_user_referenced_module_words() {
    let mut interp = Interpreter::new();
    import(&mut interp, "json");
    define_caller(&mut interp, "USE-PARSE", "JSON@PARSE");

    interp.stack.push(Value::from_string("json"));
    interp.stack.push(Value::from_vector(vec![Value::from_string("parse")]));
    let result = op_unimport_only(&mut interp);

    match result {
        Err(AjisaiError::Message(msg)) => {
            assert!(msg.contains("Cannot unimport JSON@PARSE"), "got: {msg}");
            assert!(msg.contains("DEMO@USE-PARSE"), "got: {msg}");
        }
        other => panic!("referenced module word should be rejected, got {:?}", other),
    }
    assert!(json_entry(&interp).unwrap().import_all_public);
}

#[test]
fn import_loads_the_module_dictionary_once() {
    let mut interp = Interpreter::new();
    import(&mut interp, "json");
    assert_eq!(interp.module_vocabulary.len(), 1);
    assert_eq!(interp.module_epoch, 2);
    import(&mut interp, "JSON");
    assert_eq!(interp.module_vocabulary.len(), 1);
    assert_eq!(interp.module_epoch, 3);

    interp.stack.push(Value::from_string("math"));
    interp.stack.push(Value::from_string("abs"));
    op_import_only(&mut interp).unwrap();
    assert_eq!(interp.module_vocabulary.len(), 2);
    assert!(interp.resolve_word_entry_readonly("abs").is_some());
    assert!(interp.resolve_word_entry_readonly("neg").is_none());
}

#[test]
fn unimport_of_an_unknown_or_absent_module() {
    let mut interp = Interpreter::new();
    interp.stack.push(Value::from_string("nope"));
    assert!(matches!(op_unimport(&mut interp), Err(AjisaiError::UnknownModule(_))));
    interp.stack.push(Value::from_string("json"));
    op_unimport(&mut interp).unwrap();
    assert!(json_entry(&interp).is_none());
    assert_eq!(interp.module_epoch, 0);
}

#[test]
fn unimport_only_names_the_first_caller_exactly() {
    let mut interp = Interpreter::new();
    import(&mut interp, "json");
    define_caller(&mut interp, "USE-PARSE", "JSON@PARSE");
    interp.stack.push(Value::from_string("json"));
    interp.stack.push(Value::from_vector(vec![Value::from_string("stringify"), Value::from_string("parse")]));
    match op_unimport_only(&mut interp) {
        Err(AjisaiError::Message(msg)) => {
            assert_eq!(msg, "Cannot unimport JSON@PARSE: referenced by DEMO@USE-PARSE")
        }
        other => panic!("unexpected {:?}", other),
    }
}
