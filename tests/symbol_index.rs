use axiom_compliance::language::Language;
use axiom_compliance::symbols::{extract_symbols, sort_symbols, FileSymbols, Symbol, SymbolIndex, SymbolKind};
use axiom_compliance::types::{Location, Position, Range};

fn test_location() -> Location {
    Location::new("test.c".to_string(), Range::new(Position::new(0, 0), Position::new(0, 10)))
}

#[test]
fn test_symbol_ordering() {
    let mut symbols = vec![
        Symbol::new("zeta".to_string(), SymbolKind::Variable, test_location()),
        Symbol::new("alpha".to_string(), SymbolKind::Function, test_location()),
        Symbol::new("MyType".to_string(), SymbolKind::Type, test_location()),
        Symbol::new("beta".to_string(), SymbolKind::Function, test_location()),
    ];
    sort_symbols(&mut symbols);
    assert_eq!(symbols[0].name, "MyType");
    assert_eq!(symbols[1].name, "alpha");
    assert_eq!(symbols[2].name, "beta");
    assert_eq!(symbols[3].name, "zeta");
}

#[test]
fn test_deterministic_ordering() {
    for _ in 0..10 {
        let mut symbols1 = vec![
            Symbol::new("c".to_string(), SymbolKind::Function, test_location()),
            Symbol::new("a".to_string(), SymbolKind::Function, test_location()),
            Symbol::new("b".to_string(), SymbolKind::Function, test_location()),
        ];
        let mut symbols2 = symbols1.clone();
        sort_symbols(&mut symbols1);
        sort_symbols(&mut symbols2);
        assert_eq!(symbols1, symbols2);
        assert_eq!(symbols1[0].name, "a");
        assert_eq!(symbols1[1].name, "b");
        assert_eq!(symbols1[2].name, "c");
    }
}

#[test]
fn test_completion_determinism() {
    let mut index = SymbolIndex::new();
    let loc = test_location();
    let symbols = vec![
        Symbol::new("func_c".to_string(), SymbolKind::Function, loc.clone()),
        Symbol::new("func_a".to_string(), SymbolKind::Function, loc.clone()),
        Symbol::new("func_b".to_string(), SymbolKind::Function, loc.clone()),
        Symbol::new("TypeA".to_string(), SymbolKind::Type, loc.clone()),
    ];
    index.files.push(FileSymbols { path: "test.c".to_string(), symbols });
    for _ in 0..10 {
        let completions = index.complete("func_");
        assert_eq!(completions.len(), 3);
        assert_eq!(completions[0].name, "func_a");
        assert_eq!(completions[1].name, "func_b");
        assert_eq!(completions[2].name, "func_c");
    }
}

#[test]
fn test_completion_kind_ordering() {
    let mut index = SymbolIndex::new();
    let loc = test_location();
    let symbols = vec![
        Symbol::new("abc_var".to_string(), SymbolKind::Variable, loc.clone()),
        Symbol::new("abc_func".to_string(), SymbolKind::Function, loc.clone()),
        Symbol::new("AbcType".to_string(), SymbolKind::Type, loc.clone()),
    ];
    index.files.push(FileSymbols { path: "test.c".to_string(), symbols });
    let completions = index.complete("abc");
    assert_eq!(completions.len(), 3);
    assert_eq!(completions[0].kind, SymbolKind::Type);
    assert_eq!(completions[1].kind, SymbolKind::Function);
    assert_eq!(completions[2].kind, SymbolKind::Variable);
}

fn leaf(kind: &str, text: &str) -> AstNode {
    let mut n = node(kind, false, vec![]);
    n.text = Some(text.to_string());
    n
}

fn sample_tree() -> AstNode {
    node("translation_unit", false, vec![
        node("preproc_def", false, vec![leaf("identifier", "MAX")]),
        node("struct_specifier", false, vec![
            leaf("type_identifier", "point"),
            node("field_declaration_list", false, vec![
                node("field_declaration", false, vec![leaf("primitive_type", "int"), leaf("field_identifier", "x"), leaf("identifier", "x")]),
            ]),
        ]),
        node("function_definition", false, vec![
            leaf("primitive_type", "int"),
            node("function_declarator", false, vec![leaf("identifier", "area")]),
        ]),
    ])
}

#[test]
fn symbols_extracted_from_tree() {
    let syms = extract_symbols("geo.c", &sample_tree());
    let got: Vec<(&str, SymbolKind, Vec<String>)> = syms.iter().map(|s| (s.name.as_str(), s.kind, s.scope.clone())).collect();
    assert_eq!(got, vec![
        ("MAX", SymbolKind::Macro, vec![]),
        ("point", SymbolKind::Type, vec![]),
        ("x", SymbolKind::Field, vec!["point".to_string()]),
        ("area", SymbolKind::Function, vec![]),
        ("area", SymbolKind::Function, vec![]),
    ]);
    assert!(syms.iter().all(|s| s.location.path == "geo.c"));
}

#[test]
fn index_replaces_and_removes_files() {
    let mut index = SymbolIndex::new();
    assert!(index.is_empty());
    index.index_file("a.c".to_string(), &sample_tree());
    index.index_file("b.c".to_string(), &node("preproc_def", false, vec![leaf("identifier", "Z")]));
    assert_eq!(index.len(), 6);
    let a: Vec<&str> = index.symbols_in_file("a.c").unwrap().iter().map(|s| s.name.as_str()).collect();
    assert_eq!(a, vec!["point", "area", "area", "MAX", "x"]);
    index.index_file("a.c".to_string(), &node("enumerator", false, vec![leaf("identifier", "RED")]));
    assert_eq!(index.len(), 2);
    assert_eq!(index.symbols_in_file("a.c").unwrap()[0].name, "RED");
    index.remove_file("a.c");
    assert!(index.symbols_in_file("a.c").is_none());
    assert_eq!(index.len(), 1);
    assert_eq!(index.complete("z").len(), 1);
    let sym = Symbol::new("f".to_string(), SymbolKind::Function, test_location())
        .with_scope(vec!["S".to_string()])
        .with_signature("int f(void)");
    assert_eq!(sym.signature, Some("int f(void)".to_string()));
    assert_eq!(SymbolKind::EnumVariant.sort_order(), 4);
    assert_eq!(SymbolKind::EnumVariant.name(), "enum");
}

#[test]
fn test_language_detection() {
    assert_eq!(Language::from_path("main.c"), Some(Language::C));
    assert_eq!(Language::from_path("main.cpp"), Some(Language::Cpp));
    assert_eq!(Language::from_path("main.h"), Some(Language::C));
    assert_eq!(Language::from_path("main.hpp"), Some(Language::Cpp));
    assert_eq!(Language::from_path("main.rs"), None);
    assert_eq!(Language::from_path("dir.v2/MAIN.CC"), Some(Language::Cpp));
    assert_eq!(Language::from_path(".c"), None);
}

use axiom_compliance::ast::AstNode;

fn node(kind: &str, is_error: bool, children: Vec<AstNode>) -> AstNode {
    AstNode {
        kind: kind.to_string(),
        range: Range::new(Position::new(0, 0), Position::new(10, 0)),
        is_error,
        is_named: true,
        children,
        text: None,
    }
}

#[test]
fn test_ast_node_errors() {
    let mut bad = node("ERROR", true, vec![]);
    bad.range = Range::new(Position::new(1, 0), Position::new(1, 10));
    bad.text = Some("bad code".to_string());
    let root = node("root", false, vec![bad]);
    let errors = root.errors();
    assert_eq!(errors.len(), 1);
    assert_eq!(errors[0].kind, "ERROR");
}

#[test]
fn find_by_kind_is_preorder() {
    let tree = node("root", false, vec![
        node("call", false, vec![node("call", false, vec![])]),
        node("ERROR", true, vec![node("call", true, vec![])]),
    ]);
    assert_eq!(tree.find_by_kind("call").len(), 3);
    let errs: Vec<&str> = tree.errors().iter().map(|n| n.kind.as_str()).collect();
    assert_eq!(errs, vec!["ERROR", "call"]);
    assert!(tree.find_by_kind("nothing").is_empty());
}
