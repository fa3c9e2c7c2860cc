use axiom_compliance::arm_mcu::{validate_linker_config, ArmMcuConfig, FloatAbi, LinkerConfig};
use axiom_compliance::binary_gen::{parse_size_output, BinaryOutputConfig};
use axiom_compliance::invocation::{
    build_arm_compile_command, build_arm_link_command, build_assembly_flags, build_command,
    build_disassembly_flags, build_objcopy_bin_command, build_objcopy_hex_command,
    build_preprocessor_flags, build_section_headers_flags, build_symbol_table_flags, dry_run,
    parse_diagnostics,
};
use axiom_compliance::toolchain::{
    ArmCompileRequest, ArmLinkRequest, CompileRequest, DetectedToolchain, LinkResult, ToolchainKind,
};
use axiom_compliance::types::Severity;

fn test_toolchain() -> DetectedToolchain {
    DetectedToolchain::new(ToolchainKind::Clang, "/usr/bin/clang".to_string(), "15.0.0".to_string())
}

fn arm_request(mcu: ArmMcuConfig) -> ArmCompileRequest {
    ArmCompileRequest::new("test.c".to_string(), "test.o".to_string(), mcu)
}

const GCC: &str = "/usr/bin/arm-none-eabi-gcc";

#[test]
fn test_compiler_flags_includes_cpu() {
    let flags = ArmMcuConfig::cortex_m3().compiler_flags();
    assert!(flags.contains(&"-mcpu=cortex-m3".to_string()));
}

#[test]
fn test_compiler_flags_includes_thumb() {
    let flags = ArmMcuConfig::cortex_m3().compiler_flags();
    assert!(flags.contains(&"-mthumb".to_string()));
}

#[test]
fn test_compiler_flags_includes_fpu() {
    let flags = ArmMcuConfig::cortex_m4().compiler_flags();
    assert!(flags.contains(&"-mfpu=fpv4-sp-d16".to_string()));
}

#[test]
fn test_compiler_flags_includes_float_abi_hard() {
    let flags = ArmMcuConfig::cortex_m4().compiler_flags();
    assert!(flags.contains(&"-mfloat-abi=hard".to_string()));
}

#[test]
fn test_compiler_flags_includes_defines() {
    let flags = ArmMcuConfig::cortex_m3().with_define("STM32H750xx").compiler_flags();
    assert!(flags.contains(&"-DSTM32H750xx".to_string()));
}

#[test]
fn compiler_flags_exact_order() {
    let flags = ArmMcuConfig::cortex_m7().with_define("A").with_define("B=1").compiler_flags();
    assert_eq!(flags, vec!["-mcpu=cortex-m7", "-mthumb", "-mfpu=fpv5-d16", "-mfloat-abi=hard", "-DA", "-DB=1"]);
    let m0 = ArmMcuConfig::cortex_m0().with_float_abi(FloatAbi::SoftFp).compiler_flags();
    assert_eq!(m0, vec!["-mcpu=cortex-m0", "-mthumb", "-mfloat-abi=softfp"]);
}

#[test]
fn test_linker_flags_includes_script() {
    let flags = ArmMcuConfig::cortex_m3().linker_flags(&LinkerConfig::new("test.ld"));
    assert!(flags.iter().any(|f| f.starts_with("-Ttest.ld")));
}

#[test]
fn test_linker_flags_includes_map() {
    let linker = LinkerConfig::new("test.ld").with_map("output.map");
    let flags = ArmMcuConfig::cortex_m3().linker_flags(&linker);
    assert!(flags.iter().any(|f| f.contains("-Map=output.map")));
}

#[test]
fn test_linker_flags_includes_gc_sections() {
    let flags = ArmMcuConfig::cortex_m3().linker_flags(&LinkerConfig::new("test.ld"));
    assert!(flags.contains(&"-Wl,--gc-sections".to_string()));
}

#[test]
fn linker_flags_exact_order() {
    let linker = LinkerConfig::new("s.ld").with_map("o.map").with_flag("--print-memory-usage").with_flag("-Wl,-q");
    let flags = ArmMcuConfig::cortex_m3().linker_flags(&linker);
    assert_eq!(flags, vec![
        "-mcpu=cortex-m3", "-mthumb", "-mfloat-abi=soft", "-Ts.ld", "-Wl,-Map=o.map",
        "-Wl,--gc-sections", "-Wl,--print-memory-usage", "-Wl,-q",
    ]);
}

#[test]
fn test_validate_linker_config_nonexistent() {
    let linker = LinkerConfig::new("/nonexistent/script.ld");
    let exists = std::path::Path::new("/nonexistent/script.ld").exists();
    let result = validate_linker_config(&linker, exists);
    assert!(result.is_err());
    assert_eq!(result.unwrap_err(), "Linker script not found: /nonexistent/script.ld");
}

#[test]
fn test_build_command_basic() {
    let request = CompileRequest::new("main.c".to_string(), "main.o".to_string());
    let args = build_command(&test_toolchain(), &request);
    assert!(args.contains(&"-c".to_string()));
    assert!(args.contains(&"main.c".to_string()));
    assert!(args.contains(&"-o".to_string()));
    assert!(args.contains(&"main.o".to_string()));
    assert!(args.contains(&"-O0".to_string()));
    assert!(args.contains(&"-g".to_string()));
}

#[test]
fn test_build_command_with_optimization() {
    let request = CompileRequest::new("main.c".to_string(), "main.o".to_string())
        .with_optimization(2)
        .with_debug(false);
    let args = build_command(&test_toolchain(), &request);
    assert!(args.contains(&"-O2".to_string()));
    assert!(!args.contains(&"-g".to_string()));
}

#[test]
fn build_command_target_only_for_clang() {
    let request = CompileRequest::new("a.c".to_string(), "a.o".to_string())
        .with_target("thumbv7m-none-eabi")
        .with_flag("-Wall")
        .with_optimization(9);
    let clang = build_command(&test_toolchain(), &request);
    assert_eq!(clang, vec!["-c", "a.c", "-o", "a.o", "-O3", "-g", "--target=thumbv7m-none-eabi", "-Wall"]);
    let gcc = DetectedToolchain::new(ToolchainKind::Gcc, "/usr/bin/gcc".to_string(), "13".to_string());
    assert_eq!(build_command(&gcc, &request), vec!["-c", "a.c", "-o", "a.o", "-O3", "-g", "-Wall"]);
}

#[test]
fn test_dry_run() {
    let request = CompileRequest::new("main.c".to_string(), "main.o".to_string());
    let cmd = dry_run(&test_toolchain(), &request);
    assert!(cmd.starts_with("/usr/bin/clang"));
    assert!(cmd.contains("main.c"));
    assert_eq!(cmd, "/usr/bin/clang -c main.c -o main.o -O0 -g");
}

#[test]
fn test_parse_diagnostics() {
    let stderr = r#"
main.c:10:5: error: use of undeclared identifier 'x'
main.c:15:10: warning: unused variable 'y' [-Wunused-variable]
        "#;
    let diags = parse_diagnostics(stderr, ToolchainKind::Clang);
    assert_eq!(diags.len(), 2);
    assert_eq!(diags[0].severity, Severity::Error);
    assert_eq!(diags[0].message, "main.c:10:5: error: use of undeclared identifier 'x'");
    assert_eq!(diags[1].severity, Severity::Warning);
}

#[test]
fn test_build_arm_compile_command_includes_c_flag() {
    let args = build_arm_compile_command(GCC, &arm_request(ArmMcuConfig::cortex_m3()));
    assert!(args.contains(&"-c".to_string()));
}

#[test]
fn test_build_arm_compile_command_includes_source_and_output() {
    let args = build_arm_compile_command(GCC, &arm_request(ArmMcuConfig::cortex_m3()));
    assert!(args.contains(&"test.c".to_string()));
    assert!(args.contains(&"-o".to_string()));
    assert!(args.contains(&"test.o".to_string()));
}

#[test]
fn test_build_arm_compile_command_includes_mcu_flags() {
    let args = build_arm_compile_command(GCC, &arm_request(ArmMcuConfig::cortex_m3()));
    assert!(args.contains(&"-mcpu=cortex-m3".to_string()));
    assert!(args.contains(&"-mthumb".to_string()));
}

#[test]
fn test_build_arm_compile_command_include_paths_in_order() {
    let request = arm_request(ArmMcuConfig::cortex_m3()).with_include_path("inc1").with_include_path("inc2");
    let args = build_arm_compile_command(GCC, &request);
    let inc1_pos = args.iter().position(|a| a == "-Iinc1");
    let inc2_pos = args.iter().position(|a| a == "-Iinc2");
    assert!(inc1_pos.is_some());
    assert!(inc2_pos.is_some());
    assert!(inc1_pos.unwrap() < inc2_pos.unwrap());
}

#[test]
fn test_build_arm_compile_command_optimization_levels() {
    let mcu = ArmMcuConfig::cortex_m3();
    for level in 0..=3 {
        let request = arm_request(mcu.clone()).with_optimization(level);
        let args = build_arm_compile_command(GCC, &request);
        assert!(args.contains(&format!("-O{}", level)));
    }
}

#[test]
fn test_build_arm_compile_command_debug_flag() {
    let request = arm_request(ArmMcuConfig::cortex_m3()).with_debug(true);
    let args = build_arm_compile_command(GCC, &request);
    assert!(args.contains(&"-g3".to_string()));
}

#[test]
fn arm_compile_command_exact() {
    let request = arm_request(ArmMcuConfig::cortex_m3()).with_define("X").with_include_path("inc").with_optimization(1).with_debug(false);
    let args = build_arm_compile_command(GCC, &request);
    assert_eq!(args, vec!["-c", "-mcpu=cortex-m3", "-mthumb", "-mfloat-abi=soft", "-DX", "-Iinc", "-O1", "test.c", "-o", "test.o"]);
}

fn link_request(objects: Vec<&str>) -> ArmLinkRequest {
    ArmLinkRequest::new(
        objects.into_iter().map(|s| s.to_string()).collect(),
        "test.elf".to_string(),
        LinkerConfig::new("test.ld"),
        ArmMcuConfig::cortex_m3(),
    )
}

#[test]
fn test_build_arm_link_command_includes_linker_script() {
    let args = build_arm_link_command(GCC, &link_request(vec!["test.o"]));
    assert!(args.iter().any(|a| a.starts_with("-Ttest.ld")));
}

#[test]
fn test_build_arm_link_command_includes_all_objects() {
    let args = build_arm_link_command(GCC, &link_request(vec!["main.o", "gpio.o", "uart.o"]));
    assert!(args.contains(&"main.o".to_string()));
    assert!(args.contains(&"gpio.o".to_string()));
    assert!(args.contains(&"uart.o".to_string()));
}

#[test]
fn test_build_arm_link_command_includes_mcu_flags() {
    let args = build_arm_link_command(GCC, &link_request(vec!["test.o"]));
    assert!(args.contains(&"-mcpu=cortex-m3".to_string()));
    assert!(args.contains(&"-mthumb".to_string()));
    assert_eq!(&args[args.len() - 5..], &["--specs=nano.specs", "-nostartfiles", "test.o", "-o", "test.elf"]);
}

#[test]
fn test_link_result_memory_overflow_detection_will_not_fit() {
    let result = LinkResult {
        exit_code: 1,
        stdout: String::new(),
        stderr: "section `.text' will not fit in region `FLASH'".to_string(),
        diagnostics: vec![],
    };
    assert!(result.has_memory_overflow());
    assert!(!result.success());
}

#[test]
fn test_link_result_memory_overflow_detection_region_overflow() {
    let result = LinkResult {
        exit_code: 1,
        stdout: String::new(),
        stderr: "region `RAM' overflowed by 1024 bytes".to_string(),
        diagnostics: vec![],
    };
    assert!(result.has_memory_overflow());
    let clean = LinkResult { exit_code: 0, stdout: String::new(), stderr: "region ok".to_string(), diagnostics: vec![] };
    assert!(!clean.has_memory_overflow());
}

#[test]
fn test_build_preprocessor_flags_contains_e() {
    assert!(build_preprocessor_flags().contains(&"-E".to_string()));
}

#[test]
fn test_build_assembly_flags_contains_s() {
    assert!(build_assembly_flags().contains(&"-S".to_string()));
}

#[test]
fn test_build_disassembly_flags_contains_d() {
    assert!(build_disassembly_flags().contains(&"-d".to_string()));
}

#[test]
fn test_build_symbol_table_flags_contains_t() {
    assert!(build_symbol_table_flags().contains(&"-t".to_string()));
}

#[test]
fn test_build_section_headers_flags_contains_h() {
    assert!(build_section_headers_flags().contains(&"-h".to_string()));
}

#[test]
fn test_build_objcopy_hex_command() {
    let args = build_objcopy_hex_command("/usr/bin/arm-none-eabi-objcopy", "test.elf", "test.hex");
    assert!(args.contains(&"-O".to_string()));
    assert!(args.contains(&"ihex".to_string()));
    assert!(args.contains(&"test.elf".to_string()));
    assert!(args.contains(&"test.hex".to_string()));
}

#[test]
fn test_build_objcopy_bin_command() {
    let args = build_objcopy_bin_command("/usr/bin/arm-none-eabi-objcopy", "test.elf", "test.bin");
    assert!(args.contains(&"-O".to_string()));
    assert!(args.contains(&"binary".to_string()));
    assert!(args.contains(&"test.elf".to_string()));
    assert!(args.contains(&"test.bin".to_string()));
}

#[test]
fn test_parse_size_output() {
    let output = r#"   text    data     bss     dec     hex filename
   12345    1234     567   14146    3742 test.elf
"#;
    let stats = parse_size_output(output).unwrap();
    assert_eq!(stats.text, 12345);
    assert_eq!(stats.data, 1234);
    assert_eq!(stats.bss, 567);
    assert_eq!(stats.total, 14146);
}

#[test]
fn test_parse_size_output_malformed() {
    assert!(parse_size_output("invalid output").is_none());
    assert!(parse_size_output("h\n 1 2 x\n").is_none());
    assert!(parse_size_output("h\n 4294967295 1 0\n").is_none());
}

#[test]
fn binary_output_defaults() {
    let c = BinaryOutputConfig::new();
    assert!(c.hex && c.bin && c.size_report);
}

#[test]
fn detected_toolchain_marks() {
    let tc = test_toolchain().as_bundled();
    assert!(tc.bundled);
    assert_eq!(tc.kind.name(), "Clang");
    assert_eq!(FloatAbi::Hard.as_flag(), "hard");
}
