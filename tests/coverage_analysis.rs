use axiom_compliance::coverage::{
    branch_coverage_counts, build_coverage_flags, generate_coverage_report, parse_gcov_output,
    statement_coverage_counts, uncovered_lines, BranchData, LineData,
};

fn percent(num: usize, den: usize) -> f64 {
    if den == 0 {
        0.0
    } else {
        (num as f64 / den as f64) * 100.0
    }
}

#[test]
fn test_build_coverage_flags_contains_coverage() {
    let flags = build_coverage_flags();
    assert!(flags.contains(&"--coverage".to_string()));
    assert!(flags.contains(&"-fprofile-arcs".to_string()));
    assert!(flags.contains(&"-ftest-coverage".to_string()));
}

#[test]
fn test_parse_gcov_output_identifies_executed_lines() {
    let gcov_output = r#"
        -:    0:Source:test.c
        5:    1:int main() {
        5:    2:    return 0;
        -:    3:}
"#;
    let (lines, _) = parse_gcov_output(gcov_output).ok().unwrap();
    let executed: Vec<_> = lines
        .iter()
        .filter(|l| l.execution_count.is_some() && l.execution_count.unwrap() > 0)
        .collect();
    assert_eq!(executed.len(), 2);
}

#[test]
fn test_parse_gcov_output_identifies_unexecuted_lines() {
    let gcov_output = r#"
        -:    0:Source:test.c
        5:    1:int main() {
    #####:    2:    unreachable();
        5:    3:    return 0;
        -:    4:}
"#;
    let (lines, _) = parse_gcov_output(gcov_output).ok().unwrap();
    let unexecuted: Vec<_> = lines
        .iter()
        .filter(|l| l.execution_count == Some(0))
        .collect();
    assert_eq!(unexecuted.len(), 1);
    assert_eq!(unexecuted[0].line_number, 2);
}

#[test]
fn test_calculate_statement_coverage_returns_50_percent_for_5_of_10() {
    let counts = [Some(5), Some(3), Some(1), Some(2), Some(1), Some(0), Some(0), Some(0), Some(0), Some(0)];
    let lines: Vec<LineData> = counts
        .iter()
        .enumerate()
        .map(|(i, c)| LineData { line_number: i as u32 + 1, execution_count: *c })
        .collect();
    let (executed, executable) = statement_coverage_counts(&lines);
    assert_eq!((executed, executable), (5, 10));
    assert_eq!(percent(executed, executable), 50.0);
}

#[test]
fn test_calculate_branch_coverage_returns_75_percent_for_3_of_4() {
    let branches = vec![
        BranchData { line_number: 1, taken: true },
        BranchData { line_number: 2, taken: true },
        BranchData { line_number: 3, taken: true },
        BranchData { line_number: 4, taken: false },
    ];
    let (taken, total) = branch_coverage_counts(&branches);
    assert_eq!((taken, total), (3, 4));
    assert_eq!(percent(taken, total), 75.0);
}

#[test]
fn statement_coverage_ignores_non_executable_and_empty_is_zero() {
    let lines = vec![
        LineData { line_number: 1, execution_count: None },
        LineData { line_number: 2, execution_count: None },
    ];
    assert_eq!(statement_coverage_counts(&lines), (0, 0));
    assert_eq!(branch_coverage_counts(&Vec::new()), (0, 0));
}

#[test]
fn gcov_branch_lines_and_headers() {
    let text = "        -:    0:Source:x.c\n        3:   10:  if (a) branch taken\n    #####:   11:  branch never executed\nnot a record line\n        2:  abc:header\n";
    let (lines, branches) = parse_gcov_output(text).ok().unwrap();
    assert_eq!(lines.len(), 3);
    assert_eq!(lines[0], LineData { line_number: 0, execution_count: None });
    assert_eq!(lines[1], LineData { line_number: 10, execution_count: Some(3) });
    assert_eq!(lines[2], LineData { line_number: 11, execution_count: Some(0) });
    assert_eq!(branches, vec![
        BranchData { line_number: 10, taken: true },
        BranchData { line_number: 11, taken: false },
    ]);
    assert_eq!(uncovered_lines(&lines), vec![11]);
}

#[test]
fn report_totals_sum_raw_counts() {
    let big = "        1:    1:a\n        1:    2:b\n        1:    3:c\n    #####:    4:d\n".to_string();
    let small = "    #####:    1:x\n".to_string();
    let data = vec![("big.c".to_string(), big), ("small.c".to_string(), small)];
    let report = generate_coverage_report(&data).ok().unwrap();
    assert_eq!(report.files.len(), 2);
    assert_eq!(report.files[0].file, "big.c");
    assert_eq!((report.files[0].executed_lines, report.files[0].executable_lines), (3, 4));
    assert_eq!(report.files[1].uncovered_lines, vec![1]);
    assert_eq!((report.total_executed, report.total_executable), (3, 5));
    assert_eq!(percent(report.total_executed, report.total_executable), 60.0);
}

#[test]
fn file_without_records_has_zero_coverage() {
    let data = vec![("empty.c".to_string(), "garbage\n\n".to_string())];
    let report = generate_coverage_report(&data).ok().unwrap();
    assert_eq!(report.files[0].executable_lines, 0);
    assert_eq!(percent(report.total_executed, report.total_executable), 0.0);
}
