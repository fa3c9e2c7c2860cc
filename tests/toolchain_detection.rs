use axiom_compliance::compliance_error::ComplianceError;
use axiom_compliance::detection::{
    bundled_python_path, detect_source, is_version_compatible, parse_arm_gcc_version, parse_version,
    suite_tool_paths, validate_toolchain_suite,
};
use axiom_compliance::toolchain::{ArmToolchainSuite, ToolchainCompleteness, ToolchainKind, ToolchainSource};
use axiom_compliance::toolchain_error::{ArmToolchainError, HostOs};

fn suite(gxx: &str, ld: &str) -> ArmToolchainSuite {
    ArmToolchainSuite {
        gcc: "/usr/bin/true".to_string(),
        gxx: gxx.to_string(),
        as_: "/usr/bin/true".to_string(),
        ld: ld.to_string(),
        objcopy: "/usr/bin/true".to_string(),
        objdump: "/usr/bin/true".to_string(),
        size: "/usr/bin/true".to_string(),
        gdb: "/usr/bin/true".to_string(),
        version: "10.3.1".to_string(),
        source: ToolchainSource::SystemPath,
        completeness: ToolchainCompleteness::Complete,
    }
}

fn existence(s: &ArmToolchainSuite) -> Vec<bool> {
    suite_tool_paths(s).iter().map(|p| std::path::Path::new(p).exists()).collect()
}

#[test]
fn test_parse_clang_version() {
    let output = "Apple clang version 15.0.0 (clang-1500.0.40.1)\nTarget: arm64-apple-darwin23.0.0";
    assert_eq!(parse_version(output, ToolchainKind::Clang), Some("15.0.0".to_string()));
}

#[test]
fn test_parse_gcc_version() {
    let output = "gcc (Homebrew GCC 13.2.0) 13.2.0\nCopyright...";
    assert_eq!(parse_version(output, ToolchainKind::Gcc), Some("13.2.0".to_string()));
}

#[test]
fn test_parse_python_version() {
    assert_eq!(parse_version("Python 3.11.6", ToolchainKind::Python), Some("3.11.6".to_string()));
}

#[test]
fn version_fallbacks() {
    assert_eq!(parse_version("", ToolchainKind::Gcc), None);
    assert_eq!(parse_version("something odd\n", ToolchainKind::Clang), Some("something odd".to_string()));
    assert_eq!(parse_version("gcc 9.4.0 (no paren after)", ToolchainKind::Gcc), Some("9.4.0".to_string()));
    assert_eq!(parse_version("python3 here", ToolchainKind::Python), Some("python3 here".to_string()));
}

#[test]
fn test_parse_arm_gcc_version_standard() {
    let output = "arm-none-eabi-gcc (GNU Arm Embedded Toolchain 10.3-2021.10) 10.3.1\nCopyright...";
    assert_eq!(parse_arm_gcc_version(output), Some("10.3.1".to_string()));
}

#[test]
fn test_parse_arm_gcc_version_stm32cubeide() {
    let output = "arm-none-eabi-gcc (xPack GNU Arm Embedded GCC x86_64) 12.2.1 20221205\nCopyright...";
    assert_eq!(parse_arm_gcc_version(output), Some("12.2.1".to_string()));
}

#[test]
fn test_detect_source_homebrew() {
    assert_eq!(detect_source("/opt/homebrew/bin/arm-none-eabi-gcc"), ToolchainSource::Homebrew);
}

#[test]
fn test_detect_source_stm32cubeide() {
    let path = "/Applications/STM32CubeIDE.app/Contents/Eclipse/plugins/com.st.stm32cube.ide.mcu.externaltools.gnu-tools-for-stm32.11.3.rel1.202309141235/tools/bin/arm-none-eabi-gcc";
    assert_eq!(detect_source(path), ToolchainSource::Stm32CubeIde);
}

#[test]
fn other_sources() {
    assert_eq!(detect_source("/usr/local/bin/arm-none-eabi-gcc"), ToolchainSource::SystemPath);
    assert_eq!(detect_source("/home/me/tools/gcc"), ToolchainSource::Manual);
}

#[test]
fn test_validate_toolchain_suite_complete() {
    let s = suite("/usr/bin/true", "/usr/bin/true");
    let result = validate_toolchain_suite(&s, &vec![true; 8]);
    assert_eq!(result, ToolchainCompleteness::Complete);
}

#[test]
fn test_validate_toolchain_suite_incomplete() {
    let s = suite("/nonexistent/g++", "/nonexistent/ld");
    let mut flags = existence(&s);
    flags[0] = true;
    flags[2] = true;
    for i in 4..8 {
        flags[i] = true;
    }
    match validate_toolchain_suite(&s, &flags) {
        ToolchainCompleteness::Incomplete { missing } => {
            assert!(missing.contains(&"g++".to_string()));
            assert!(missing.contains(&"ld".to_string()));
            assert_eq!(missing.len(), 2);
        },
        _ => panic!("Expected Incomplete"),
    }
}

#[test]
fn test_version_comparison_compatible() {
    assert!(is_version_compatible("14.3.1", "8.0.0"));
}

#[test]
fn test_version_comparison_incompatible() {
    assert!(!is_version_compatible("7.9.9", "8.0.0"));
}

#[test]
fn version_comparison_padding() {
    assert!(is_version_compatible("8", "8.0.0"));
    assert!(!is_version_compatible("8", "8.0.1"));
    assert!(is_version_compatible("10.x.2", "10.1"));
}

#[test]
fn bundled_python_location() {
    assert_eq!(bundled_python_path(), "vendor/python/bin/python3");
}

#[test]
fn test_error_display_not_found() {
    let display = ArmToolchainError::not_found(HostOs::Linux).message();
    assert!(display.contains("ARM toolchain not found"));
    assert!(!display.is_empty());
}

#[test]
fn test_error_display_incomplete() {
    let missing = vec!["arm-none-eabi-gdb".to_string(), "arm-none-eabi-size".to_string()];
    let display = ArmToolchainError::incomplete(missing).message();
    assert!(display.contains("incomplete"));
    assert!(display.contains("arm-none-eabi-gdb"));
    assert!(display.contains("arm-none-eabi-size"));
    assert_eq!(display, "ARM toolchain is incomplete. Missing tools: arm-none-eabi-gdb, arm-none-eabi-size");
}

#[test]
fn test_error_display_version_too_old() {
    let display = ArmToolchainError::version_too_old("7.3.1".to_string(), "8.0.0".to_string()).message();
    assert!(display.contains("7.3.1"));
    assert!(display.contains("8.0.0"));
    assert!(display.contains("too old"));
}

#[test]
fn test_error_display_linker_script_not_found() {
    let display = ArmToolchainError::linker_script_not_found("/path/to/missing/script.ld".to_string()).message();
    assert!(display.contains("Linker script not found"));
    assert!(display.contains("script.ld"));
}

#[test]
fn test_error_display_memory_overflow() {
    let display = ArmToolchainError::memory_overflow(
        "FLASH".to_string(),
        "section .text exceeds available space by 2048 bytes".to_string(),
    )
    .message();
    assert!(display.contains("Memory overflow"));
    assert!(display.contains("FLASH"));
    assert!(display.contains("2048 bytes"));
}

#[test]
fn test_error_display_compilation_failed() {
    let diagnostics = vec![
        "error: expected ';' before '}' token".to_string(),
        "error: 'undefined_var' undeclared".to_string(),
    ];
    let display = ArmToolchainError::compilation_failed(2, diagnostics).message();
    assert!(display.contains("Compilation failed"));
    assert!(display.contains("2 error"));
}

#[test]
fn test_macos_installation_suggestion() {
    let display = ArmToolchainError::not_found(HostOs::MacOs).message();
    assert!(display.contains("Homebrew") || display.contains("brew"));
    assert!(display.contains("gcc-arm-embedded") || display.contains("arm.com"));
}

#[test]
fn test_linux_installation_suggestion() {
    let display = ArmToolchainError::not_found(HostOs::Linux).message();
    assert!(display.contains("apt-get") || display.contains("dnf"));
    assert!(display.contains("gcc-arm-none-eabi") || display.contains("arm-none-eabi-gcc"));
}

#[test]
fn test_windows_installation_suggestion() {
    let display = ArmToolchainError::not_found(HostOs::Windows).message();
    assert!(display.contains("ARM Developer") || display.contains("developer.arm.com"));
    assert!(display.contains("Chocolatey") || display.contains("choco"));
}

#[test]
fn test_compliance_error_display_annotation_parse() {
    let display = ComplianceError::annotation_parse_error("test.c".to_string(), 42, "Invalid requirement format".to_string()).message();
    assert!(display.contains("test.c"));
    assert!(display.contains("42"));
    assert!(display.contains("Invalid requirement format"));
}

#[test]
fn test_compliance_error_display_requirement_not_found() {
    let display = ComplianceError::requirement_not_found("REQ-999".to_string()).message();
    assert!(display.contains("REQ-999"));
    assert!(display.contains("not found"));
}

#[test]
fn test_compliance_error_display_coverage_data_not_found() {
    let display = ComplianceError::coverage_data_not_found("/path/to/coverage.gcov".to_string()).message();
    assert!(display.contains("coverage.gcov"));
    assert!(display.contains("not found"));
}

#[test]
fn test_compliance_error_display_invalid_coverage_data() {
    let display = ComplianceError::invalid_coverage_data("coverage.gcov".to_string(), "Unexpected format in line 10".to_string()).message();
    assert!(display.contains("coverage.gcov"));
    assert!(display.contains("Invalid coverage data"));
    assert!(display.contains("Unexpected format"));
}

#[test]
fn test_compliance_error_display_tool_qualification() {
    let display = ComplianceError::tool_qualification_error("Failed to write log entry".to_string()).message();
    assert!(display.contains("Tool qualification"));
    assert!(display.contains("Failed to write"));
}

#[test]
fn test_compliance_error_display_checksum_mismatch() {
    let display = ComplianceError::checksum_mismatch("output.elf".to_string(), "abc123".to_string(), "def456".to_string()).message();
    assert!(display.contains("output.elf"));
    assert!(display.contains("mismatch"));
    assert!(display.contains("abc123"));
    assert!(display.contains("def456"));
}

#[test]
fn test_compliance_error_display_mode_not_enabled() {
    let display = ComplianceError::mode_not_enabled("DO-178C".to_string()).message();
    assert!(display.contains("DO-178C"));
    assert!(display.contains("not enabled"));
}

#[test]
fn test_compliance_error_display_unsupported_export_format() {
    let display = ComplianceError::unsupported_export_format("YAML".to_string()).message();
    assert!(display.contains("YAML"));
    assert!(display.contains("not supported"));
}

#[test]
fn test_compliance_error_display_deviations_detected() {
    let details = vec![
        "New function added without traceability".to_string(),
        "Modified code breaks existing link".to_string(),
    ];
    let display = ComplianceError::deviations_detected(2, details).message();
    assert!(display.contains("2 deviation"));
    assert!(display.contains("Deviations detected"));
}
