use axiom_compliance::project::{
    find_untraceable_functions, generate_traceability_matrix, is_test_path, should_descend,
};
use axiom_compliance::traceability::{
    find_untested_requirements, matrix_csv_rows, parse_requirement_annotations,
    parse_test_annotations, LinkType, TraceabilityLink, TraceabilityMatrix,
};
use axiom_compliance::untraced::analyze_file_for_untraceable;

#[test]
fn test_parse_requirement_annotations_finds_req_001() {
    let content = "// REQ-001: Initialize system\nvoid init(void) {\n    // Implementation\n}\n";
    let links = parse_requirement_annotations("init.c", content);
    assert_eq!(links.len(), 1);
    assert_eq!(links[0].requirement_id, "REQ-001");
    assert_eq!(links[0].line_number, 1);
    assert_eq!(links[0].link_type, LinkType::Implementation);
}

#[test]
fn test_parse_requirement_annotations_finds_sub_requirements() {
    let content = "/* REQ-001.1: Sub-requirement */\nvoid sub_init(void) {\n    /* REQ-001.2: Another sub */\n}\n";
    let links = parse_requirement_annotations("sub.c", content);
    assert_eq!(links.len(), 2);
    assert_eq!(links[0].requirement_id, "REQ-001.1");
    assert_eq!(links[0].line_number, 1);
    assert_eq!(links[1].requirement_id, "REQ-001.2");
    assert_eq!(links[1].line_number, 3);
}

#[test]
fn test_parse_test_annotations_finds_single_requirement() {
    let content = "// TEST: REQ-001\nvoid test_init(void) {\n    assert(init() == 0);\n}\n";
    let links = parse_test_annotations("test_init.c", content);
    assert_eq!(links.len(), 1);
    assert_eq!(links[0].requirement_id, "REQ-001");
    assert_eq!(links[0].line_number, 1);
    assert_eq!(links[0].link_type, LinkType::Test);
}

#[test]
fn test_parse_test_annotations_finds_multiple_requirements() {
    let content = "/* TEST: REQ-001, REQ-002 */\nvoid test_combined(void) {\n    // Test both requirements\n}\n";
    let links = parse_test_annotations("test_combined.c", content);
    assert_eq!(links.len(), 2);
    assert_eq!(links[0].requirement_id, "REQ-001");
    assert_eq!(links[1].requirement_id, "REQ-002");
    assert_eq!(links[0].line_number, 1);
    assert_eq!(links[1].line_number, 1);
}

#[test]
fn embedded_ids_are_found_exactly() {
    let content = "// REQ-ABC-001 first\nint x;\n// REQ-XYZ-002 second\n";
    let links = parse_requirement_annotations("m.c", content);
    let ids: Vec<&str> = links.iter().map(|l| l.requirement_id.as_str()).collect();
    assert_eq!(ids, vec!["REQ-ABC-001", "REQ-XYZ-002"]);
    assert_eq!(links[0].line_number, 1);
    assert_eq!(links[1].line_number, 3);
    assert_eq!(links[0].source_file, "m.c");
}

#[test]
fn id_grammar_edges() {
    let content = "REQ-A1-B2.34 REQ- REQ-x REQ-AB-.5 xREQ-Q9-\r\n";
    let links = parse_requirement_annotations("g.c", content);
    let ids: Vec<&str> = links.iter().map(|l| l.requirement_id.as_str()).collect();
    assert_eq!(ids, vec!["REQ-A1-B2.34", "REQ-AB", "REQ-Q9"]);
}

#[test]
fn test_line_without_marker_gives_no_links() {
    let links = parse_test_annotations("t_test.c", "// REQ-001 only\n// TEST:\n");
    assert!(links.is_empty());
}

#[test]
fn test_matrix_contains_all_parsed_requirements() {
    let mut matrix = TraceabilityMatrix::new();
    matrix.add_link(TraceabilityLink::new("REQ-001".to_string(), "test.c".to_string(), 10, LinkType::Implementation));
    matrix.add_link(TraceabilityLink::new("REQ-002".to_string(), "test.c".to_string(), 20, LinkType::Implementation));
    matrix.add_link(TraceabilityLink::new("REQ-001".to_string(), "test_test.c".to_string(), 5, LinkType::Test));
    let all_reqs = matrix.get_all_requirements();
    assert_eq!(all_reqs.len(), 2);
    assert!(all_reqs.contains(&"REQ-001".to_string()));
    assert!(all_reqs.contains(&"REQ-002".to_string()));
    let req1_links = matrix.get_links_for_requirement("REQ-001");
    assert_eq!(req1_links.len(), 2);
}

#[test]
fn matrix_lists_are_sorted_and_indices_agree() {
    let mut matrix = TraceabilityMatrix::new();
    let adds = [("REQ-B", "z.c", 1), ("REQ-A", "a.c", 2), ("REQ-B", "a.c", 3), ("REQ-C", "m.c", 4)];
    for (id, f, n) in adds.iter() {
        matrix.add_link(TraceabilityLink::new(id.to_string(), f.to_string(), *n, LinkType::Implementation));
    }
    assert_eq!(matrix.get_all_requirements(), vec!["REQ-A", "REQ-B", "REQ-C"]);
    assert_eq!(matrix.get_all_files(), vec!["a.c", "m.c", "z.c"]);
    let b: Vec<u32> = matrix.get_links_for_requirement("REQ-B").iter().map(|l| l.line_number).collect();
    assert_eq!(b, vec![1, 3]);
    let a: Vec<u32> = matrix.get_links_in_file("a.c").iter().map(|l| l.line_number).collect();
    assert_eq!(a, vec![2, 3]);
    assert!(matrix.get_links_for_requirement("REQ-Z").is_empty());
    for link in matrix.links().iter() {
        assert!(matrix.get_links_for_requirement(&link.requirement_id).iter().any(|l| l.line_number == link.line_number));
        assert!(matrix.get_links_in_file(&link.source_file).iter().any(|l| l.line_number == link.line_number));
    }
}

#[test]
fn test_find_untested_requirements() {
    let mut matrix = TraceabilityMatrix::new();
    matrix.add_link(TraceabilityLink::new("REQ-001".to_string(), "impl.c".to_string(), 10, LinkType::Implementation));
    matrix.add_link(TraceabilityLink::new("REQ-001".to_string(), "test.c".to_string(), 5, LinkType::Test));
    matrix.add_link(TraceabilityLink::new("REQ-002".to_string(), "impl.c".to_string(), 20, LinkType::Implementation));
    let untested = find_untested_requirements(&matrix);
    assert_eq!(untested.len(), 1);
    assert_eq!(untested[0], "REQ-002");
}

#[test]
fn adding_a_test_link_clears_untested() {
    let mut matrix = TraceabilityMatrix::new();
    matrix.add_link(TraceabilityLink::new("REQ-9".to_string(), "impl.c".to_string(), 1, LinkType::Implementation));
    assert_eq!(find_untested_requirements(&matrix), vec!["REQ-9"]);
    matrix.add_link(TraceabilityLink::new("REQ-9".to_string(), "t.c".to_string(), 2, LinkType::Test));
    assert!(find_untested_requirements(&matrix).is_empty());
}

#[test]
fn test_export_matrix_csv() {
    let mut matrix = TraceabilityMatrix::new();
    matrix.add_link(TraceabilityLink::new("REQ-001".to_string(), "test.c".to_string(), 10, LinkType::Implementation));
    matrix.add_link(TraceabilityLink::new("REQ-001".to_string(), "test_test.c".to_string(), 5, LinkType::Test));
    let rows = matrix_csv_rows(&matrix);
    assert_eq!(rows.len(), 3);
    assert_eq!(rows[0], vec!["Requirement ID", "Source File", "Line Number", "Link Type", "Created At"]);
    assert_eq!(&rows[1][..4], &["REQ-001", "test.c", "10", "Implementation"]);
    assert_eq!(&rows[2][..4], &["REQ-001", "test_test.c", "5", "Test"]);
    assert!(rows[1][4].contains('T'));
}

#[test]
fn test_find_untraceable_functions_identifies_functions_without_req() {
    let content = "#include <stdio.h>\n\nint helper(int a) {\n    return a;\n}\n\n// REQ-100\nvoid traced(void) {\n    if (x) {\n        call(1);\n    }\n}\n";
    let mut found = Vec::new();
    analyze_file_for_untraceable("module.c", content, &mut found);
    let names: Vec<(&str, u32)> = found.iter().map(|u| (u.name.as_str(), u.line_number)).collect();
    assert_eq!(names, vec![("helper", 3)]);
    assert_eq!(found[0].file, "module.c");
}

#[test]
fn project_scans_route_files() {
    let files = vec![
        ("src/a.c".to_string(), format!("// REQ-1\nint f(void) {{\n}}\n{}int g(void) {{\n", "\n".repeat(12))),
        ("tests/Test_a.c".to_string(), "// TEST: REQ-1 REQ-2\nint t(void) {\n".to_string()),
        ("doc/readme.md".to_string(), "REQ-3\n".to_string()),
    ];
    let m = generate_traceability_matrix(&files);
    assert_eq!(m.links().len(), 3);
    assert_eq!(m.links()[0].link_type, LinkType::Implementation);
    assert_eq!(m.links()[1].link_type, LinkType::Test);
    assert_eq!(m.get_all_requirements(), vec!["REQ-1", "REQ-2"]);
    let u = find_untraceable_functions(&files);
    let names: Vec<&str> = u.iter().map(|x| x.name.as_str()).collect();
    assert_eq!(names, vec!["g"]);
    assert_eq!(u[0].line_number, 16);
    assert!(is_test_path("x/TEST/y.c"));
    assert!(!should_descend(".git"));
    assert!(!should_descend("target"));
    assert!(should_descend("src"));
}
