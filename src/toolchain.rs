//! Compiler toolchains, compile and link requests, and the argument lists
//! that drive the compiler, objcopy and objdump.
use vstd::prelude::*;

use crate::arm_mcu::{ArmMcuConfig, LinkerConfig};
use crate::text::{chars_of, contains_chars, contains_seq, lemma_views_push, views};
use crate::types::{Diagnostic, Severity};

verus! {

#[derive(Debug, Clone, Copy, PartialEq, Eq, Hash, Structural)]
pub enum ToolchainKind {
    Clang,
    Gcc,
    ArmGcc,
    Python,
}

impl ToolchainKind {
    /// The display name of the kind.
    pub fn name(&self) -> (r: &'static str)
        ensures
            r@ == match *self {
                ToolchainKind::Clang => "Clang"@,
                ToolchainKind::Gcc => "GCC"@,
                ToolchainKind::ArmGcc => "ARM GCC"@,
                ToolchainKind::Python => "Python"@,
            },
    {
        match self {
            ToolchainKind::Clang => "Clang",
            ToolchainKind::Gcc => "GCC",
            ToolchainKind::ArmGcc => "ARM GCC",
            ToolchainKind::Python => "Python",
        }
    }
}

/// Where a toolchain was installed from.
#[derive(Debug, Clone, Copy, PartialEq, Eq, Hash, Structural)]
pub enum ToolchainSource {
    Homebrew,
    Stm32CubeIde,
    SystemPath,
    Manual,
}

impl ToolchainSource {
    /// The name of the source as the interface shows it.
    pub fn label(&self) -> (r: &'static str)
        ensures
            r@ == match *self {
                ToolchainSource::Homebrew => "Homebrew"@,
                ToolchainSource::Stm32CubeIde => "STM32CubeIDE"@,
                ToolchainSource::SystemPath => "System"@,
                ToolchainSource::Manual => "Manual"@,
            },
    {
        match self {
            ToolchainSource::Homebrew => "Homebrew",
            ToolchainSource::Stm32CubeIde => "STM32CubeIDE",
            ToolchainSource::SystemPath => "System",
            ToolchainSource::Manual => "Manual",
        }
    }
}

/// Whether every tool of a suite is present.
#[derive(Debug, Clone, PartialEq, Eq)]
pub enum ToolchainCompleteness {
    Complete,
    Incomplete { missing: Vec<String> },
}

/// The tools of an ARM GCC installation.
#[derive(Debug, Clone, PartialEq, Eq)]
pub struct ArmToolchainSuite {
    pub gcc: String,
    pub gxx: String,
    pub as_: String,
    pub ld: String,
    pub objcopy: String,
    pub objdump: String,
    pub size: String,
    pub gdb: String,
    pub version: String,
    pub source: ToolchainSource,
    pub completeness: ToolchainCompleteness,
}

/// A toolchain found on this machine.
#[derive(Debug, Clone, PartialEq, Eq)]
pub struct DetectedToolchain {
    pub kind: ToolchainKind,
    pub path: String,
    pub version: String,
    pub bundled: bool,
}

impl DetectedToolchain {
    pub fn new(kind: ToolchainKind, path: String, version: String) -> (r: Self)
        ensures
            r.kind == kind,
            r.path == path,
            r.version == version,
            !r.bundled,
    {
        DetectedToolchain { kind, path, version, bundled: false }
    }

    /// This toolchain, marked as shipped with the application.
    pub fn as_bundled(self) -> (r: Self)
        ensures
            r.bundled,
            r.kind == self.kind,
            r.path == self.path,
            r.version == self.version,
    {
        DetectedToolchain { bundled: true, ..self }
    }
}

/// A request to compile one source file.
#[derive(Debug, Clone)]
pub struct CompileRequest {
    pub source: String,
    pub output: String,
    pub target: Option<String>,
    pub flags: Vec<String>,
    pub optimization: u8,
    pub debug: bool,
}

impl CompileRequest {
    /// Compiling `source` to `output` without optimization, with debug data.
    pub fn new(source: String, output: String) -> (r: Self)
        ensures
            r.source == source,
            r.output == output,
            r.target is None,
            r.flags@.len() == 0,
            r.optimization == 0,
            r.debug,
    {
        CompileRequest { source, output, target: None, flags: Vec::new(), optimization: 0, debug: true }
    }

    pub fn with_target(self, target: &str) -> (r: Self)
        ensures
            r.target matches Some(t) && t@ == target@,
            r.source == self.source,
            r.output == self.output,
            r.flags == self.flags,
            r.optimization == self.optimization,
            r.debug == self.debug,
    {
        CompileRequest { target: Some(String::from_str(target)), ..self }
    }

    pub fn with_flag(self, flag: &str) -> (r: Self)
        ensures
            views(r.flags@) == views(self.flags@).push(flag@),
            r.source == self.source,
            r.output == self.output,
            r.target == self.target,
            r.optimization == self.optimization,
            r.debug == self.debug,
    {
        let mut c = self;
        let ghost before = c.flags@;
        c.flags.push(String::from_str(flag));
        proof {
            lemma_views_push(before, c.flags@.last());
        }
        c
    }

    /// The optimization level, capped at 3.
    pub fn with_optimization(self, level: u8) -> (r: Self)
        ensures
            r.optimization == if level < 3 { level } else { 3 },
            r.source == self.source,
            r.output == self.output,
            r.target == self.target,
            r.flags == self.flags,
            r.debug == self.debug,
    {
        CompileRequest { optimization: if level < 3 { level } else { 3 }, ..self }
    }

    pub fn with_debug(self, debug: bool) -> (r: Self)
        ensures
            r.debug == debug,
            r.source == self.source,
            r.output == self.output,
            r.target == self.target,
            r.flags == self.flags,
            r.optimization == self.optimization,
    {
        CompileRequest { debug, ..self }
    }
}

/// What a compiler run gave.
#[derive(Debug, Clone)]
pub struct CompileResult {
    pub exit_code: i32,
    pub stdout: String,
    pub stderr: String,
    pub duration_ms: u64,
    pub diagnostics: Vec<Diagnostic>,
}

impl CompileResult {
    pub fn success(&self) -> (r: bool)
        ensures
            r == (self.exit_code == 0),
    {
        self.exit_code == 0
    }
}

/// A request to compile one source file for an ARM target.
#[derive(Debug, Clone)]
pub struct ArmCompileRequest {
    pub source: String,
    pub output: String,
    pub mcu: ArmMcuConfig,
    pub include_paths: Vec<String>,
    pub optimization: u8,
    pub debug: bool,
}

impl ArmCompileRequest {
    pub fn new(source: String, output: String, mcu: ArmMcuConfig) -> (r: Self)
        ensures
            r.source == source,
            r.output == output,
            r.mcu == mcu,
            r.include_paths@.len() == 0,
            r.optimization == 0,
            r.debug,
    {
        ArmCompileRequest { source, output, mcu, include_paths: Vec::new(), optimization: 0, debug: true }
    }

    pub fn with_include_path(self, path: &str) -> (r: Self)
        ensures
            views(r.include_paths@) == views(self.include_paths@).push(path@),
            r.source == self.source,
            r.output == self.output,
            r.mcu == self.mcu,
            r.optimization == self.optimization,
            r.debug == self.debug,
    {
        let mut c = self;
        let ghost before = c.include_paths@;
        c.include_paths.push(String::from_str(path));
        proof {
            lemma_views_push(before, c.include_paths@.last());
        }
        c
    }

    pub fn with_define(self, define: &str) -> (r: Self)
        ensures
            views(r.mcu.defines@) == views(self.mcu.defines@).push(define@),
            r.mcu.cpu == self.mcu.cpu,
            r.mcu.thumb == self.mcu.thumb,
            r.mcu.fpu == self.mcu.fpu,
            r.mcu.float_abi == self.mcu.float_abi,
            r.source == self.source,
            r.output == self.output,
            r.include_paths == self.include_paths,
            r.optimization == self.optimization,
            r.debug == self.debug,
    {
        let ArmCompileRequest { source, output, mcu, include_paths, optimization, debug } = self;
        ArmCompileRequest { source, output, mcu: mcu.with_define(define), include_paths, optimization, debug }
    }

    /// The optimization level, capped at 3.
    pub fn with_optimization(self, level: u8) -> (r: Self)
        ensures
            r.optimization == if level < 3 { level } else { 3 },
            r.source == self.source,
            r.output == self.output,
            r.mcu == self.mcu,
            r.include_paths == self.include_paths,
            r.debug == self.debug,
    {
        ArmCompileRequest { optimization: if level < 3 { level } else { 3 }, ..self }
    }

    pub fn with_debug(self, debug: bool) -> (r: Self)
        ensures
            r.debug == debug,
            r.source == self.source,
            r.output == self.output,
            r.mcu == self.mcu,
            r.include_paths == self.include_paths,
            r.optimization == self.optimization,
    {
        ArmCompileRequest { debug, ..self }
    }
}

/// A request to link object files for an ARM target.
#[derive(Debug, Clone)]
pub struct ArmLinkRequest {
    pub objects: Vec<String>,
    pub output: String,
    pub linker: LinkerConfig,
    pub mcu: ArmMcuConfig,
}

impl ArmLinkRequest {
    pub fn new(objects: Vec<String>, output: String, linker: LinkerConfig, mcu: ArmMcuConfig) -> (r: Self)
        ensures
            r.objects == objects,
            r.output == output,
            r.linker == linker,
            r.mcu == mcu,
    {
        ArmLinkRequest { objects, output, linker, mcu }
    }
}

/// What a linker run gave.
#[derive(Debug, Clone)]
pub struct LinkResult {
    pub exit_code: i32,
    pub stdout: String,
    pub stderr: String,
    pub diagnostics: Vec<Diagnostic>,
}

impl LinkResult {
    pub fn success(&self) -> (r: bool)
        ensures
            r == (self.exit_code == 0),
    {
        self.exit_code == 0
    }

    /// Whether the linker reported that the image does not fit in memory.
    pub fn has_memory_overflow(&self) -> (r: bool)
        ensures
            r == (contains_seq(self.stderr@, "will not fit"@) || (contains_seq(self.stderr@, "region"@)
                && contains_seq(self.stderr@, "overflow"@))),
    {
        let e = chars_of(self.stderr.as_str());
        contains_chars(&e, &chars_of("will not fit")) || (contains_chars(&e, &chars_of("region"))
            && contains_chars(&e, &chars_of("overflow")))
    }
}

} // verus!
