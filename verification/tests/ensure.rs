use greppy::certificate::{Status, ValidatorReport};
use greppy::ensure::{
    ensure_import_plan, import_line, is_import_kind, mentions_token, scan_imports, ImportLanguage,
    TopNode,
};
use greppy::plan::{validator_report, validators_passed};

fn node(kind: &str, content: &str, text: &str) -> TopNode {
    let start = content.find(text).unwrap();
    TopNode { kind: kind.into(), start_byte: start, end_byte: start + text.len() }
}

#[test]
fn import_lines_per_language() {
    assert_eq!(
        import_line(ImportLanguage::Python, "auth.validators", Some("validate")).as_deref(),
        Some("from auth.validators import validate")
    );
    assert_eq!(import_line(ImportLanguage::Python, "os", None).as_deref(), Some("import os"));
    assert_eq!(
        import_line(ImportLanguage::Rust, "crate::auth", Some("validate")).as_deref(),
        Some("use crate::auth::validate;")
    );
    assert_eq!(import_line(ImportLanguage::Go, "fmt", Some("x")).as_deref(), Some("import \"fmt\""));
    assert_eq!(
        import_line(ImportLanguage::TypeScript, "./a", Some("b")).as_deref(),
        Some("import { b } from \"./a\";")
    );
    assert_eq!(import_line(ImportLanguage::JavaScript, "./a", None).as_deref(), Some("import \"./a\";"));
    assert_eq!(import_line(ImportLanguage::Other, "x", None), None);
    assert!(is_import_kind(ImportLanguage::Python, "import_from_statement"));
    assert!(!is_import_kind(ImportLanguage::Rust, "import_statement"));
}

#[test]
fn tokens_split_on_non_word_characters() {
    assert!(mentions_token("from a.b import validate, other", "validate"));
    assert!(!mentions_token("from a.b import validated", "validate"));
    assert!(mentions_token("use x::é_1;", "é_1"));
}

#[test]
fn python_insert_after_last_import_plan() {
    let content = "import os\n\ndef run():\n    pass\n";
    let nodes = vec![
        node("import_statement", content, "import os"),
        node("function_definition", content, "def run():\n    pass"),
    ];
    let scan = scan_imports(ImportLanguage::Python, &nodes, content.as_bytes(), "auth.validators", Some("validate"));
    assert_eq!(scan.insert_at, 10);
    assert!(!scan.satisfied);
    let line = import_line(ImportLanguage::Python, "auth.validators", Some("validate"));
    let op = ensure_import_plan(line, Some(scan)).unwrap();
    assert_eq!(op.id, "ensure-import");
    assert_eq!(op.range, (10, 10));
    assert_eq!(op.replacement, b"from auth.validators import validate\n".to_vec());
}

#[test]
fn second_run_already_satisfied_plan() {
    let content = "from auth.validators import validate\n";
    let nodes = vec![node("import_from_statement", content, "from auth.validators import validate")];
    let scan = scan_imports(ImportLanguage::Python, &nodes, content.as_bytes(), "auth.validators", Some("validate"));
    assert!(scan.satisfied);
    let line = import_line(ImportLanguage::Python, "auth.validators", Some("validate"));
    assert_eq!(ensure_import_plan(line, Some(scan)).unwrap_err(), Status::AlreadySatisfied);
}

#[test]
fn conflicting_binding_refuses_plan() {
    let content = "from other.module import validate\n";
    let nodes = vec![node("import_from_statement", content, "from other.module import validate")];
    let scan = scan_imports(ImportLanguage::Python, &nodes, content.as_bytes(), "auth.validators", Some("validate"));
    assert_eq!(scan.conflict.as_deref(), Some("from other.module import validate"));
    let line = import_line(ImportLanguage::Python, "auth.validators", Some("validate"));
    assert_eq!(ensure_import_plan(line, Some(scan)).unwrap_err(), Status::InvalidResult);
}

#[test]
fn file_without_imports_inserts_at_top_plan() {
    let content = "def run():\n    pass\n";
    let nodes = vec![node("function_definition", content, "def run():\n    pass")];
    let scan = scan_imports(ImportLanguage::Python, &nodes, content.as_bytes(), "os", None);
    let op = ensure_import_plan(import_line(ImportLanguage::Python, "os", None), Some(scan)).unwrap();
    assert_eq!(op.range, (0, 0));
    assert_eq!(op.replacement, b"import os\n".to_vec());
    assert_eq!(ensure_import_plan(None, None).unwrap_err(), Status::NotFound);
}

#[test]
fn validators_gate_publication() {
    let argv = vec!["true".to_string()];
    let ok = validator_report(&argv, Some(0), false);
    assert_eq!(ok.exit_code, 0);
    let killed = validator_report(&argv, Some(0), true);
    assert_eq!(killed.exit_code, -1);
    assert!(killed.timed_out);
    assert_eq!(validator_report(&argv, None, false).exit_code, -1);
    assert!(validators_passed(&[ok.clone()]));
    assert!(!validators_passed(&[ok, killed]));
    let failed = ValidatorReport { argv: vec![], exit_code: 1, timed_out: false };
    assert!(!validators_passed(&[failed]));
    assert!(validators_passed(&[]));
}

#[test]
fn rerun_after_insertion_is_already_satisfied() {
    for (language, kind, module) in [
        (ImportLanguage::Rust, "use_declaration", "crate::auth"),
        (ImportLanguage::TypeScript, "import_statement", "./auth"),
        (ImportLanguage::Python, "import_from_statement", "auth.validators"),
    ] {
        let line = import_line(language, module, Some("validate")).unwrap();
        let content = format!("{line}\nrest\n");
        let nodes = vec![node(kind, &content, &line)];
        let scan = scan_imports(language, &nodes, content.as_bytes(), module, Some("validate"));
        assert!(scan.satisfied);
        assert_eq!(ensure_import_plan(Some(line), Some(scan)).unwrap_err(), Status::AlreadySatisfied);
    }
}
