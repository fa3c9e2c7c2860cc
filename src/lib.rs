//! Certification-evidence engine for safety-critical embedded software:
//! structural coverage from execution reports, a requirement-traceability
//! matrix built from source and test annotations, an append-only tool-usage
//! audit log with content checksums, and compliance-mode lifecycle
//! management with snapshots and deviation detection. Around that core it
//! holds the data of the tool front ends: toolchain commands, symbols,
//! syntax trees, version-control status and settings.

pub mod annotation;
pub mod arm_mcu;
pub mod ast;
pub mod binary_gen;
pub mod compliance_error;
pub mod coverage;
pub mod detection;
pub mod entries;
pub mod invocation;
pub mod language;
pub mod logging;
pub mod makefile;
pub mod modes;
pub mod project;
pub mod settings;
pub mod symbols;
pub mod terminal;
pub mod text;
pub mod time;
pub mod tool_qualification;
pub mod toolchain;
pub mod toolchain_error;
pub mod traceability;
pub mod types;
pub mod untraced;
pub mod vcs;
