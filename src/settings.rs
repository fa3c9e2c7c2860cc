//! Editor, build and compliance preferences, with their defaults.
use vstd::prelude::*;

verus! {

/// Build preferences.
#[derive(Debug, Clone, PartialEq)]
pub struct BuildSettings {
    pub output_dir: String,
    pub optimization_level: u8,
    pub debug_symbols: bool,
}

impl Default for BuildSettings {
    /// Into `build`, unoptimized, with debug symbols.
    fn default() -> (r: Self)
        ensures
            r.output_dir@ == "build"@,
            r.optimization_level == 0,
            r.debug_symbols,
    {
        BuildSettings { output_dir: String::from_str("build"), optimization_level: 0, debug_symbols: true }
    }
}

/// Editor preferences.
#[derive(Debug, Clone, PartialEq)]
pub struct EditorSettings {
    pub font_size: u32,
    pub tab_size: u32,
    pub font_family: String,
    pub line_numbers: bool,
    pub word_wrap: bool,
    pub autocomplete: bool,
}

impl Default for EditorSettings {
    fn default() -> (r: Self)
        ensures
            r.font_size == 14,
            r.tab_size == 4,
            r.font_family@ == "JetBrains Mono, SF Mono, monospace"@,
            r.line_numbers,
            !r.word_wrap,
            r.autocomplete,
    {
        EditorSettings {
            font_size: 14,
            tab_size: 4,
            font_family: String::from_str("JetBrains Mono, SF Mono, monospace"),
            line_numbers: true,
            word_wrap: false,
            autocomplete: true,
        }
    }
}

#[derive(Debug, Clone, Copy, PartialEq, Eq, Structural)]
pub enum AssemblySyntax {
    Intel,
    Att,
}

/// Assembly view preferences.
#[derive(Debug, Clone, PartialEq)]
pub struct AssemblySettings {
    pub syntax: AssemblySyntax,
    pub architecture: Option<String>,
}

impl Default for AssemblySettings {
    fn default() -> (r: Self)
        ensures
            r.syntax == AssemblySyntax::Intel,
            r.architecture is None,
    {
        AssemblySettings { syntax: AssemblySyntax::Intel, architecture: None }
    }
}

/// Debugger preferences.
#[derive(Debug, Clone, PartialEq)]
pub struct DebugSettings {
    pub probe_type: Option<String>,
    pub reset_on_connect: bool,
}

impl Default for DebugSettings {
    fn default() -> (r: Self)
        ensures
            r.probe_type is None,
            !r.reset_on_connect,
    {
        DebugSettings { probe_type: None, reset_on_connect: false }
    }
}

#[derive(Debug, Clone, Copy, PartialEq, Eq, Structural)]
pub enum Theme {
    Dark,
    Light,
}

/// Interface preferences.
#[derive(Debug, Clone, Copy, PartialEq, Eq, Structural)]
pub struct UiSettings {
    pub theme: Theme,
    pub font_size: u32,
}

impl Default for UiSettings {
    fn default() -> (r: Self)
        ensures
            r.theme == Theme::Dark,
            r.font_size == 13,
    {
        UiSettings { theme: Theme::Dark, font_size: 13 }
    }
}

/// Target preferences of the ARM toolchain.
#[derive(Debug, Clone, PartialEq)]
pub struct ArmToolchainSettings {
    pub mcu: Option<String>,
    pub fpu: Option<String>,
    pub float_abi: Option<String>,
    pub linker_script: Option<String>,
    pub include_paths: Vec<String>,
    pub defines: Vec<String>,
}

impl Default for ArmToolchainSettings {
    fn default() -> (r: Self)
        ensures
            r.mcu is None && r.fpu is None && r.float_abi is None && r.linker_script is None,
            r.include_paths@.len() == 0,
            r.defines@.len() == 0,
    {
        ArmToolchainSettings {
            mcu: None,
            fpu: None,
            float_abi: None,
            linker_script: None,
            include_paths: Vec::new(),
            defines: Vec::new(),
        }
    }
}

/// Which standards a project enforces, and its design assurance level.
#[derive(Debug, Clone, PartialEq)]
pub struct ComplianceSettings {
    pub do178c_enabled: bool,
    pub do330_enabled: bool,
    pub arp4754a_enabled: bool,
    pub dal: Option<String>,
}

impl Default for ComplianceSettings {
    fn default() -> (r: Self)
        ensures
            !r.do178c_enabled && !r.do330_enabled && !r.arp4754a_enabled,
            r.dal is None,
    {
        ComplianceSettings { do178c_enabled: false, do330_enabled: false, arp4754a_enabled: false, dal: None }
    }
}

/// Failures of settings migration.
#[derive(Debug)]
pub enum MigrationError {
    UnknownVersion(u32),
    MigrationFailed { from: u32, to: u32, reason: String },
}

/// The first of two optional values that is present.
pub open spec fn first_some<T>(a: Option<T>, b: Option<T>) -> Option<T> {
    match a {
        Some(x) => Some(x),
        None => b,
    }
}

fn either<T>(a: Option<T>, b: Option<T>) -> (r: Option<T>)
    ensures
        r == first_some(a, b),
{
    match a {
        Some(x) => Some(x),
        None => b,
    }
}

/// Project build settings over global ones: the project's output directory
/// where it is not the default `build`, and the project's optimization and
/// debug choices.
pub fn merge_build_settings(global: BuildSettings, project: BuildSettings) -> (r: BuildSettings)
    ensures
        r.output_dir == if project.output_dir@ != "build"@ { project.output_dir } else { global.output_dir },
        r.optimization_level == project.optimization_level,
        r.debug_symbols == project.debug_symbols,
{
    let keep_project = !crate::text::str_eq(project.output_dir.as_str(), "build");
    BuildSettings {
        output_dir: if keep_project { project.output_dir } else { global.output_dir },
        optimization_level: project.optimization_level,
        debug_symbols: project.debug_symbols,
    }
}

/// Editor settings are global only.
pub fn merge_editor_settings(global: EditorSettings, _project: EditorSettings) -> (r: EditorSettings)
    ensures
        r == global,
{
    global
}

/// The project's syntax, and its architecture where it names one.
pub fn merge_assembly_settings(global: AssemblySettings, project: AssemblySettings) -> (r: AssemblySettings)
    ensures
        r.syntax == project.syntax,
        r.architecture == first_some(project.architecture, global.architecture),
{
    AssemblySettings { syntax: project.syntax, architecture: either(project.architecture, global.architecture) }
}

/// The project's probe where it names one, and its reset choice.
pub fn merge_debug_settings(global: DebugSettings, project: DebugSettings) -> (r: DebugSettings)
    ensures
        r.probe_type == first_some(project.probe_type, global.probe_type),
        r.reset_on_connect == project.reset_on_connect,
{
    DebugSettings { probe_type: either(project.probe_type, global.probe_type), reset_on_connect: project.reset_on_connect }
}

/// Interface settings are global only.
pub fn merge_ui_settings(global: UiSettings, _project: UiSettings) -> (r: UiSettings)
    ensures
        r == global,
{
    global
}

/// A standard is enforced where either the project or the global settings
/// enforce it; the project's assurance level wins where it names one.
pub fn merge_compliance_settings(global: ComplianceSettings, project: ComplianceSettings) -> (r: ComplianceSettings)
    ensures
        r.do178c_enabled == (project.do178c_enabled || global.do178c_enabled),
        r.do330_enabled == (project.do330_enabled || global.do330_enabled),
        r.arp4754a_enabled == (project.arp4754a_enabled || global.arp4754a_enabled),
        r.dal == first_some(project.dal, global.dal),
{
    ComplianceSettings {
        do178c_enabled: project.do178c_enabled || global.do178c_enabled,
        do330_enabled: project.do330_enabled || global.do330_enabled,
        arp4754a_enabled: project.arp4754a_enabled || global.arp4754a_enabled,
        dal: either(project.dal, global.dal),
    }
}

} // verus!
