use ajisai::error::AjisaiError;
use ajisai::interpreter::Interpreter;
use ajisai::module_ops::{
    lookup_module_word_detail, op_import, op_import_only, restore_import_entry, restore_module,
};
use ajisai::modules::{
    available_module_names, is_known_module, is_mode_preserving_word, module_catalog_words,
    module_word_description, module_word_entries,
};
use ajisai::value::Value;

#[test]
fn available_modules_cover_all_specced_modules() {
    let names = available_module_names();
    for expected in ["MUSIC", "JSON", "IO", "TIME", "CRYPTO", "ALGO", "MATH", "SERIAL"] {
        assert!(
            names.contains(&expected),
            "available module list should include {}",
            expected
        );
    }
}

#[test]
fn catalog_lists_words_regardless_of_import_state() {
    let catalog = module_catalog_words("JSON").expect("JSON catalog");
    let names: Vec<&str> = catalog.iter().map(|w| w.short_name).collect();
    assert!(names.contains(&"PARSE"));
    assert!(names.contains(&"STRINGIFY"));
    assert!(!catalog.iter().any(|w| w.is_sample && w.short_name == "PARSE"));
}

#[test]
fn catalog_unknown_module_is_none() {
    assert!(module_catalog_words("NOPE").is_none());
}

#[test]
fn restore_import_entry_uppercases_selectors() {
    let mut interp = Interpreter::new();
    assert!(restore_import_entry(
        &mut interp,
        "json",
        false,
        vec!["parse".to_string()],
        vec![],
    ));
    let entry = interp.import_table.get("JSON").expect("JSON entry");
    assert!(entry.has_word("PARSE"));
    assert!(!entry.import_all_public);
    assert!(!entry.has_word("STRINGIFY"));
}

#[test]
fn restore_import_entry_unknown_module_returns_false() {
    let mut interp = Interpreter::new();
    assert!(!restore_import_entry(&mut interp, "NOPE", true, vec![], vec![]));
    assert!(interp.import_table.get("NOPE").is_none());
}

#[test]
fn module_descriptions_are_single_line() {
    for (m, name) in available_module_names().iter().enumerate() {
        for word in module_word_entries(m) {
            assert!(
                !word.description.contains('\n'),
                "module {} word {} has a multi-line description",
                name,
                word.short_name
            );
        }
    }
}

#[test]
fn catalog_is_case_insensitive_and_ordered() {
    let catalog = module_catalog_words("crypto").expect("CRYPTO catalog");
    let names: Vec<&str> = catalog.iter().map(|w| w.short_name).collect();
    assert_eq!(names, vec!["CSPRNG", "HASH"]);
    assert_eq!(module_catalog_words("Music").unwrap().len(), 30);
    assert!(is_known_module("serial"));
    assert!(!is_known_module("serials"));
}

#[test]
fn word_descriptions_use_exact_names() {
    assert_eq!(module_word_description("ALGO", "SORT"), Some("Sort vector elements in ascending order"));
    assert_eq!(module_word_description("algo", "SORT"), None);
    assert_eq!(module_word_description("ALGO", "NOPE"), None);
}

#[test]
fn mode_preserving_words_are_seq_and_sim() {
    assert!(is_mode_preserving_word("music@seq"));
    assert!(is_mode_preserving_word("MUSIC@SIM"));
    assert!(!is_mode_preserving_word("MUSIC@PLAY"));
    assert!(!is_mode_preserving_word("MUSIC"));
    assert!(!is_mode_preserving_word("NOPE@SEQ"));
}

#[test]
fn detail_names_the_word_and_trims_the_role() {
    let detail = lookup_module_word_detail("math@sqrt-eps").expect("a module word");
    assert_eq!(
        detail,
        "MATH@SQRT-EPS\nStability: stable\nCategory: math\nSummary: Square root with explicit interval width bound eps.\nRole: MATH module word: Square root with explicit interval width bound eps\nStack Effect: not yet documented"
    );
    let serial = lookup_module_word_detail("SERIAL@OPEN").unwrap();
    assert!(serial.contains("Stability: experimental"));
    assert!(lookup_module_word_detail("MATH").is_none());
    assert!(lookup_module_word_detail("MATH@NOPE").is_none());
}

#[test]
fn import_brings_in_every_public_word() {
    let mut interp = Interpreter::new();
    interp.stack.push(Value::from_string("json"));
    assert!(op_import(&mut interp).is_ok());
    assert!(interp.stack.is_empty());
    let entry = interp.import_table.get("JSON").expect("JSON entry");
    assert!(entry.import_all_public);
    assert!(entry.has_word("PARSE"));
    assert!(entry.has_word("DELETE"));
    assert_eq!(interp.module_epoch, 2);
}

#[test]
fn import_of_an_unknown_module_fails() {
    let mut interp = Interpreter::new();
    interp.stack.push(Value::from_string("nope"));
    assert!(op_import(&mut interp).is_err());
    assert!(interp.import_table.get("NOPE").is_none());
    assert!(!restore_module(&mut interp, "nope"));
    assert!(restore_module(&mut interp, "io"));
    assert!(interp.import_table.get("IO").unwrap().has_word("OUTPUT"));
}

#[test]
fn import_only_adds_the_selected_words() {
    let mut interp = Interpreter::new();
    interp.stack.push(Value::from_string("json"));
    interp.stack.push(Value::from_vector(vec![Value::from_string("parse")]));
    assert!(op_import_only(&mut interp).is_ok());
    let entry = interp.import_table.get("JSON").expect("JSON entry");
    assert!(!entry.import_all_public);
    assert!(entry.has_word("PARSE"));
    assert!(!entry.has_word("STRINGIFY"));

    interp.stack.push(Value::from_string("json"));
    interp.stack.push(Value::from_string("nope"));
    assert!(op_import_only(&mut interp).is_err());
    assert!(!interp.import_table.get("JSON").unwrap().has_word("NOPE"));
}

#[test]
fn import_only_reports_the_first_unknown_selector() {
    let mut interp = Interpreter::new();
    interp.stack.push(Value::from_string("json"));
    interp.stack.push(Value::from_vector(vec![
        Value::from_string("parse"),
        Value::from_string("nope"),
        Value::from_string("other"),
    ]));
    match op_import_only(&mut interp) {
        Err(AjisaiError::Message(m)) => assert_eq!(m, "Unknown module word 'NOPE' in JSON"),
        other => panic!("unexpected {:?}", other),
    }
    interp.stack.push(Value::from_string("json"));
    interp.stack.push(Value::from_vector(vec![Value::from_int(1)]));
    match op_import_only(&mut interp) {
        Err(AjisaiError::Message(m)) => assert_eq!(m, "IMPORT-ONLY selectors must be strings"),
        other => panic!("unexpected {:?}", other),
    }
    interp.stack.push(Value::from_string("json"));
    interp.stack.push(Value::from_int(1));
    match op_import_only(&mut interp) {
        Err(AjisaiError::Message(m)) => assert_eq!(m, "IMPORT-ONLY expects a vector of word names"),
        other => panic!("unexpected {:?}", other),
    }
    interp.stack.push(Value::from_int(5));
    match op_import(&mut interp) {
        Err(AjisaiError::UnknownModule(m)) => assert_eq!(m, "number"),
        other => panic!("unexpected {:?}", other),
    }
}
