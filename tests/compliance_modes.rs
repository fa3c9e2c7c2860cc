use axiom_compliance::modes::{
    detect_deviations, ComplianceMode, ComplianceSnapshot, ComplianceSystem, Deviation,
};

fn snapshot_with(files: &[(&str, &str)], reqs: &[&str]) -> ComplianceSnapshot {
    let mut s = ComplianceSnapshot::new();
    for (p, c) in files {
        s.set_file_checksum(p.to_string(), c.to_string());
    }
    for r in reqs {
        s.add_traced_requirement(r.to_string());
    }
    s
}

#[test]
fn test_enable_single_mode() {
    let mut system = ComplianceSystem::new();
    assert!(!system.is_mode_enabled(ComplianceMode::Do178c));
    system.enable_mode(ComplianceMode::Do178c);
    assert!(system.is_mode_enabled(ComplianceMode::Do178c));
    assert!(!system.is_mode_enabled(ComplianceMode::Do330));
    assert!(!system.is_mode_enabled(ComplianceMode::Arp4754a));
}

#[test]
fn test_disable_single_mode() {
    let mut system = ComplianceSystem::new();
    system.enable_mode(ComplianceMode::Do178c);
    assert!(system.is_mode_enabled(ComplianceMode::Do178c));
    system.disable_mode(ComplianceMode::Do178c, None);
    assert!(!system.is_mode_enabled(ComplianceMode::Do178c));
}

#[test]
fn test_enable_multiple_modes_simultaneously() {
    let mut system = ComplianceSystem::new();
    system.enable_mode(ComplianceMode::Do178c);
    system.enable_mode(ComplianceMode::Do330);
    system.enable_mode(ComplianceMode::Arp4754a);
    assert!(system.is_mode_enabled(ComplianceMode::Do178c));
    assert!(system.is_mode_enabled(ComplianceMode::Do330));
    assert!(system.is_mode_enabled(ComplianceMode::Arp4754a));
    assert_eq!(system.enabled_modes().len(), 3);
}

#[test]
fn test_is_mode_enabled_returns_correct_state() {
    let mut system = ComplianceSystem::new();
    assert!(!system.is_mode_enabled(ComplianceMode::Do178c));
    assert!(!system.is_mode_enabled(ComplianceMode::Do330));
    assert!(!system.is_mode_enabled(ComplianceMode::Arp4754a));
    system.enable_mode(ComplianceMode::Do330);
    assert!(!system.is_mode_enabled(ComplianceMode::Do178c));
    assert!(system.is_mode_enabled(ComplianceMode::Do330));
    assert!(!system.is_mode_enabled(ComplianceMode::Arp4754a));
    system.enable_mode(ComplianceMode::Arp4754a);
    assert!(!system.is_mode_enabled(ComplianceMode::Do178c));
    assert!(system.is_mode_enabled(ComplianceMode::Do330));
    assert!(system.is_mode_enabled(ComplianceMode::Arp4754a));
    system.disable_mode(ComplianceMode::Do330, None);
    assert!(!system.is_mode_enabled(ComplianceMode::Do178c));
    assert!(!system.is_mode_enabled(ComplianceMode::Do330));
    assert!(system.is_mode_enabled(ComplianceMode::Arp4754a));
}

#[test]
fn test_disable_mode_preserves_data() {
    let mut system = ComplianceSystem::new();
    system.enable_mode(ComplianceMode::Do178c);
    let mut snapshot = snapshot_with(&[("test.c", "abc123")], &["REQ-001"]);
    snapshot.add_traced_file("test.c".to_string());
    system.disable_mode(ComplianceMode::Do178c, Some(snapshot));
    assert!(!system.is_mode_enabled(ComplianceMode::Do178c));
    let preserved = system.get_snapshot(ComplianceMode::Do178c);
    assert!(preserved.is_some());
    let preserved = preserved.unwrap();
    assert_eq!(preserved.checksum_of("test.c"), Some("abc123".to_string()));
    assert!(preserved.traced_requirements.contains(&"REQ-001".to_string()));
    assert!(preserved.traced_files.contains(&"test.c".to_string()));
}

#[test]
fn test_re_enable_mode_triggers_deviation_analysis() {
    let mut system = ComplianceSystem::new();
    system.enable_mode(ComplianceMode::Do178c);
    let snapshot = snapshot_with(&[("test.c", "abc123")], &["REQ-001"]);
    system.disable_mode(ComplianceMode::Do178c, Some(snapshot));
    let report = system.enable_mode(ComplianceMode::Do178c);
    assert!(report.is_some());
    let report = report.unwrap();
    assert_eq!(report.mode, ComplianceMode::Do178c);
    assert!(system.is_mode_enabled(ComplianceMode::Do178c));
}

#[test]
fn snapshot_time_carried_and_snapshot_consumed() {
    let mut system = ComplianceSystem::new();
    system.enable_mode(ComplianceMode::Do330);
    let snapshot = snapshot_with(&[("a.c", "1")], &[]);
    let taken_at = snapshot.timestamp;
    system.disable_mode(ComplianceMode::Do330, Some(snapshot));
    let report = system.enable_mode(ComplianceMode::Do330).unwrap();
    assert_eq!(report.disabled_at, taken_at);
    assert!(!report.has_deviations());
    assert!(system.get_snapshot(ComplianceMode::Do330).is_none());
    assert!(system.enable_mode(ComplianceMode::Do330).is_none());
}

#[test]
fn disabling_a_disabled_mode_keeps_nothing() {
    let mut system = ComplianceSystem::new();
    system.disable_mode(ComplianceMode::Arp4754a, Some(ComplianceSnapshot::new()));
    assert!(system.get_snapshot(ComplianceMode::Arp4754a).is_none());
    assert!(system.enable_mode(ComplianceMode::Arp4754a).is_none());
}

#[test]
fn test_multiple_modes_can_be_active_simultaneously() {
    let mut system = ComplianceSystem::new();
    system.enable_mode(ComplianceMode::Do178c);
    system.enable_mode(ComplianceMode::Do330);
    system.enable_mode(ComplianceMode::Arp4754a);
    assert!(system.is_mode_enabled(ComplianceMode::Do178c));
    assert!(system.is_mode_enabled(ComplianceMode::Do330));
    assert!(system.is_mode_enabled(ComplianceMode::Arp4754a));
    let enabled = system.enabled_modes();
    assert_eq!(enabled.len(), 3);
    assert!(enabled.contains(&ComplianceMode::Do178c));
    assert!(enabled.contains(&ComplianceMode::Do330));
    assert!(enabled.contains(&ComplianceMode::Arp4754a));
}

#[test]
fn test_union_enforcement_applies_strictest_requirements() {
    let mut system = ComplianceSystem::new();
    let reqs = system.get_active_requirements();
    assert!(!reqs.has_any_requirements());
    system.enable_mode(ComplianceMode::Do178c);
    let reqs = system.get_active_requirements();
    assert!(reqs.requires_traceability);
    assert!(reqs.requires_coverage);
    assert!(reqs.requires_structural_coverage);
    assert!(!reqs.requires_tool_qualification);
    assert!(!reqs.requires_system_traceability);
    system.enable_mode(ComplianceMode::Do330);
    let reqs = system.get_active_requirements();
    assert!(reqs.requires_traceability);
    assert!(reqs.requires_tool_qualification);
    assert!(reqs.requires_tool_usage_logging);
    assert!(!reqs.requires_system_traceability);
    system.enable_mode(ComplianceMode::Arp4754a);
    let reqs = system.get_active_requirements();
    assert!(reqs.requires_traceability);
    assert!(reqs.requires_coverage);
    assert!(reqs.requires_structural_coverage);
    assert!(reqs.requires_tool_qualification);
    assert!(reqs.requires_tool_usage_logging);
    assert!(reqs.requires_system_traceability);
    assert!(reqs.requires_safety_assessment);
}

#[test]
fn modified_file_deviation() {
    let snap = snapshot_with(&[("f.c", "A")], &[]);
    let current = vec![("f.c".to_string(), "B".to_string())];
    let d = detect_deviations(&snap, &current, &Vec::new(), &Vec::new());
    assert_eq!(d.len(), 1);
    match &d[0] {
        Deviation::ModifiedFile { path, old_checksum, new_checksum } => {
            assert_eq!(path, "f.c");
            assert_eq!(old_checksum, "A");
            assert_eq!(new_checksum, "B");
        },
        _ => panic!("expected a modified file"),
    }
}

#[test]
fn deleted_and_new_untraced_files() {
    let snap = snapshot_with(&[("gone.c", "A")], &["REQ-1"]);
    let current = vec![("new.c".to_string(), "C".to_string()), ("traced.c".to_string(), "D".to_string())];
    let traced_files = vec!["traced.c".to_string()];
    let d = detect_deviations(&snap, &current, &vec!["REQ-2".to_string()], &traced_files);
    assert_eq!(d.len(), 3);
    assert!(matches!(&d[0], Deviation::NewUntracedFile { path } if path == "new.c"));
    assert!(matches!(&d[1], Deviation::DeletedFile { path } if path == "gone.c"));
    assert!(matches!(&d[2], Deviation::BrokenTraceabilityLink { requirement_id, previous_file } if requirement_id == "REQ-1" && previous_file == "unknown"));
}

#[test]
fn unchanged_state_has_no_deviations() {
    let snap = snapshot_with(&[("f.c", "A")], &["REQ-1"]);
    let current = vec![("f.c".to_string(), "A".to_string())];
    let d = detect_deviations(&snap, &current, &vec!["REQ-1".to_string()], &Vec::new());
    assert!(d.is_empty());
}

#[test]
fn full_report_after_suspension() {
    let mut system = ComplianceSystem::new();
    system.enable_mode(ComplianceMode::Do178c);
    system.disable_mode(ComplianceMode::Do178c, Some(snapshot_with(&[("f.c", "A")], &[])));
    let current = vec![("f.c".to_string(), "B".to_string())];
    let rep = system
        .generate_deviation_report(ComplianceMode::Do178c, &current, &Vec::new(), &Vec::new())
        .unwrap();
    assert_eq!(rep.deviation_count(), 1);
    assert!(system
        .generate_deviation_report(ComplianceMode::Do330, &current, &Vec::new(), &Vec::new())
        .is_none());
}

#[test]
fn mode_queries_and_reports() {
    let mut system = ComplianceSystem::new();
    assert!(!system.has_any_mode_enabled());
    system.enable_mode(ComplianceMode::Do330);
    system.enable_mode(ComplianceMode::Do178c);
    assert!(system.has_any_mode_enabled());
    assert_eq!(system.enabled_modes(), vec![ComplianceMode::Do178c, ComplianceMode::Do330]);
    system.disable_all_modes();
    assert!(!system.has_any_mode_enabled());
    assert!(system.get_snapshot(ComplianceMode::Do178c).is_none());
    let mut report = axiom_compliance::modes::DeviationReport::new(ComplianceMode::Arp4754a, ComplianceSnapshot::new().timestamp);
    assert_eq!(report.deviation_count(), 0);
    report.add_deviation(Deviation::DeletedFile { path: "x.c".to_string() });
    assert!(report.has_deviations());
    assert_eq!(report.deviation_count(), 1);
}
