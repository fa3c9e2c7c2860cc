use axiom_compliance::settings::{
    ArmToolchainSettings, AssemblySettings, AssemblySyntax, BuildSettings, ComplianceSettings,
    DebugSettings, EditorSettings, Theme, UiSettings,
};
use axiom_compliance::vcs::{FileStatus, RepoStatus, StatusEntry};

fn entry(p: &str, s: FileStatus) -> StatusEntry {
    StatusEntry { path: p.to_string(), status: s }
}

#[test]
fn test_clean_status() {
    let status = RepoStatus { staged: vec![], modified: vec![], untracked: vec![], deleted: vec![], conflicted: vec![] };
    assert!(!status.has_changes());
    assert_eq!(status.total_changes(), 0);
}

#[test]
fn status_counts_every_kind() {
    let status = RepoStatus {
        staged: vec![entry("a", FileStatus::Staged)],
        modified: vec![entry("b", FileStatus::Modified), entry("c", FileStatus::Modified)],
        untracked: vec![entry("new.txt", FileStatus::Untracked)],
        deleted: vec![],
        conflicted: vec![entry("d", FileStatus::Conflicted)],
    };
    assert!(status.has_changes());
    assert_eq!(status.total_changes(), 5);
    assert_eq!(status.untracked[0].path, "new.txt");
}

#[test]
fn settings_defaults() {
    let b = BuildSettings::default();
    assert_eq!((b.output_dir.as_str(), b.optimization_level, b.debug_symbols), ("build", 0, true));
    let e = EditorSettings::default();
    assert_eq!((e.font_size, e.tab_size), (14, 4));
    assert_eq!(e.font_family, "JetBrains Mono, SF Mono, monospace");
    assert!(e.line_numbers && !e.word_wrap && e.autocomplete);
    assert_eq!(AssemblySettings::default().syntax, AssemblySyntax::Intel);
    assert!(DebugSettings::default().probe_type.is_none());
    let ui = UiSettings::default();
    assert_eq!((ui.theme, ui.font_size), (Theme::Dark, 13));
    assert!(ArmToolchainSettings::default().defines.is_empty());
    let c = ComplianceSettings::default();
    assert!(!c.do178c_enabled && !c.do330_enabled && !c.arp4754a_enabled && c.dal.is_none());
}

use axiom_compliance::makefile::{detect_makefile, parse_makefile_targets};
use axiom_compliance::terminal::TerminalSize;

#[test]
fn test_parse_makefile_targets() {
    let content = ".PHONY: all clean flash\nall:\n\techo building\nclean:\n\trm -f *.o\n";
    let targets = parse_makefile_targets(content);
    assert!(targets.contains(&"all".to_string()));
    assert!(targets.contains(&"clean".to_string()));
    assert!(targets.contains(&"flash".to_string()));
    assert_eq!(targets, vec!["all", "clean", "flash"]);
}

#[test]
fn test_parse_makefile_phony_declaration() {
    let targets = parse_makefile_targets(".PHONY: test debug\n");
    assert!(targets.contains(&"test".to_string()));
    assert!(targets.contains(&"debug".to_string()));
}

#[test]
fn makefile_skips_variables_comments_and_special_targets() {
    let content = "CC = gcc\nX=1: y\n# note: here\n.SUFFIXES:\n$(OBJ): x\nbuild: main.o\n";
    assert_eq!(parse_makefile_targets(content), vec!["build"]);
}

#[test]
fn test_detect_makefile_exists() {
    let info = detect_makefile("proj", true, Some("all:\n\techo hello\n")).unwrap();
    assert_eq!(info.path, "proj/Makefile");
    assert_eq!(info.targets, vec!["all"]);
}

#[test]
fn test_detect_makefile_not_exists() {
    assert!(detect_makefile("proj", false, None).is_none());
}

#[test]
fn terminal_default_size() {
    let s = TerminalSize::default();
    assert_eq!((s.rows, s.cols), (24, 80));
}

use axiom_compliance::settings::{
    merge_assembly_settings, merge_build_settings, merge_compliance_settings, merge_debug_settings,
    merge_editor_settings, merge_ui_settings,
};

#[test]
fn project_settings_over_global() {
    let global = BuildSettings { output_dir: "out".to_string(), optimization_level: 2, debug_symbols: false };
    let project = BuildSettings::default();
    let b = merge_build_settings(global.clone(), project);
    assert_eq!((b.output_dir.as_str(), b.optimization_level, b.debug_symbols), ("out", 0, true));
    let p2 = BuildSettings { output_dir: "bin".to_string(), optimization_level: 3, debug_symbols: false };
    assert_eq!(merge_build_settings(global, p2).output_dir, "bin");
    let g = ComplianceSettings { do178c_enabled: true, do330_enabled: false, arp4754a_enabled: false, dal: Some("A".to_string()) };
    let p = ComplianceSettings { do178c_enabled: false, do330_enabled: true, arp4754a_enabled: false, dal: None };
    let c = merge_compliance_settings(g, p);
    assert!(c.do178c_enabled && c.do330_enabled && !c.arp4754a_enabled);
    assert_eq!(c.dal, Some("A".to_string()));
    let a = merge_assembly_settings(
        AssemblySettings { syntax: AssemblySyntax::Intel, architecture: Some("armv7".to_string()) },
        AssemblySettings { syntax: AssemblySyntax::Att, architecture: None },
    );
    assert_eq!((a.syntax, a.architecture), (AssemblySyntax::Att, Some("armv7".to_string())));
    let d = merge_debug_settings(DebugSettings { probe_type: Some("stlink".to_string()), reset_on_connect: false }, DebugSettings { probe_type: Some("jlink".to_string()), reset_on_connect: true });
    assert_eq!((d.probe_type, d.reset_on_connect), (Some("jlink".to_string()), true));
    let e = merge_editor_settings(EditorSettings::default(), EditorSettings { font_size: 20, ..EditorSettings::default() });
    assert_eq!(e.font_size, 14);
    let u = merge_ui_settings(UiSettings { theme: Theme::Light, font_size: 11 }, UiSettings::default());
    assert_eq!(u.theme, Theme::Light);
}
