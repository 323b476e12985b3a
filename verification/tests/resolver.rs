use moonwalk::ast::{Instruction, Line};
use moonwalk::labels::LabelTable;
use moonwalk::lex::lex;
use moonwalk::parse::parse;
use moonwalk::resolve::{scan_labels, ScanResult};

fn program(source: &str) -> Vec<Line> {
    parse(lex(source.to_string()).unwrap()).unwrap()
}

fn name(s: &str) -> String {
    s.to_string()
}

#[test]
fn label_table_insert_and_get() {
    let mut table = LabelTable::new();
    assert_eq!(table.len(), 0);
    assert_eq!(table.get(&name("x")), None);
    assert!(!table.contains_key(&name("x")));
    assert_eq!(table.insert(name("x"), 3), None);
    assert_eq!(table.insert(name("y"), 5), None);
    assert_eq!(table.get(&name("x")), Some(3));
    assert_eq!(table.get(&name("y")), Some(5));
    assert!(table.contains_key(&name("y")));
    assert_eq!(table.len(), 2);
}

#[test]
fn label_table_insert_replaces() {
    let mut table = LabelTable::new();
    assert_eq!(table.insert(name("x"), 3), None);
    assert_eq!(table.insert(name("x"), 8), Some(3));
    assert_eq!(table.get(&name("x")), Some(8));
    assert_eq!(table.len(), 1);
}

#[test]
fn scan_clean_program() {
    let result = scan_labels(&program("jump end\nhalt\nend: from\nfrom end\n"));
    match result {
        ScanResult::Clean(table) => {
            assert_eq!(table.len(), 1);
            assert_eq!(table.get(&name("end")), Some(2));
        },
        other => panic!("{:?}", other),
    }
}

#[test]
fn scan_program_without_labels() {
    match scan_labels(&program("halt\n")) {
        ScanResult::Clean(table) => assert_eq!(table.len(), 0),
        other => panic!("{:?}", other),
    }
    match scan_labels(&vec![]) {
        ScanResult::Clean(table) => assert_eq!(table.len(), 0),
        other => panic!("{:?}", other),
    }
}

#[test]
fn scan_duplicate_label() {
    match scan_labels(&program("x: halt\ny: halt\nx: halt\ny: halt\n")) {
        ScanResult::Duplicate(label) => assert_eq!(label, "x"),
        other => panic!("{:?}", other),
    }
}

#[test]
fn scan_duplicate_is_the_first_repeat() {
    match scan_labels(&program("x: halt\ny: halt\ny: halt\nx: halt\n")) {
        ScanResult::Duplicate(label) => assert_eq!(label, "y"),
        other => panic!("{:?}", other),
    }
}

#[test]
fn scan_missing_labels_each_once_in_order() {
    let source = "jump two\nfrom one\nx: jump two\njump x\nfrom three\n";
    match scan_labels(&program(source)) {
        ScanResult::Missing(names) => assert_eq!(names, vec!["two", "one", "three"]),
        other => panic!("{:?}", other),
    }
}

#[test]
fn scan_unused_labels_in_line_order() {
    let source = "p: halt\nq: from\njump q\nr: halt\n";
    match scan_labels(&program(source)) {
        ScanResult::Unused(names, table) => {
            assert_eq!(names, vec!["p", "r"]);
            assert_eq!(table.len(), 3);
            assert_eq!(table.get(&name("p")), Some(0));
            assert_eq!(table.get(&name("q")), Some(1));
            assert_eq!(table.get(&name("r")), Some(3));
        },
        other => panic!("{:?}", other),
    }
}

#[test]
fn scan_duplicate_comes_before_missing() {
    match scan_labels(&program("jump nowhere\nx: halt\nx: halt\n")) {
        ScanResult::Duplicate(label) => assert_eq!(label, "x"),
        other => panic!("{:?}", other),
    }
}

#[test]
fn scan_missing_comes_before_unused() {
    match scan_labels(&program("idle: halt\njump nowhere\n")) {
        ScanResult::Missing(names) => assert_eq!(names, vec!["nowhere"]),
        other => panic!("{:?}", other),
    }
}

#[test]
fn scan_bare_jumps_name_nothing() {
    let lines = vec![
        Line { label: None, inst: Instruction::Jump(None), cond: None, stack: vec![] },
        Line { label: None, inst: Instruction::From(None), cond: None, stack: vec![] },
    ];
    match scan_labels(&lines) {
        ScanResult::Clean(table) => assert_eq!(table.len(), 0),
        other => panic!("{:?}", other),
    }
}
