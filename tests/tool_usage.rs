use axiom_compliance::entries::find_entry;
use axiom_compliance::tool_qualification::{record_lines, sha256_hex, ToolQualificationLogger, ToolUsageRecord};

#[test]
fn test_tool_usage_record_creation() {
    let record = ToolUsageRecord::new(
        "arm-none-eabi-gcc".to_string(),
        "14.3.1".to_string(),
        vec!["-c".to_string(), "main.c".to_string()],
        0,
    );
    assert_eq!(record.tool, "arm-none-eabi-gcc");
    assert_eq!(record.version, "14.3.1");
    assert_eq!(record.arguments.len(), 2);
    assert_eq!(record.exit_code, 0);
    assert!(record.input_checksums.is_empty());
    assert!(record.output_checksums.is_empty());
    assert!(record.diagnostics.is_empty());
}

#[test]
fn test_tool_usage_record_add_checksums() {
    let mut record = ToolUsageRecord::new("gcc".to_string(), "1.0".to_string(), vec![], 0);
    record.add_input_checksum("input.c".to_string(), "abc123".to_string());
    record.add_output_checksum("output.o".to_string(), "def456".to_string());
    assert_eq!(record.input_checksums.len(), 1);
    assert_eq!(record.output_checksums.len(), 1);
    assert_eq!(find_entry(&record.input_checksums, "input.c"), Some("abc123".to_string()));
    record.add_input_checksum("input.c".to_string(), "fff".to_string());
    assert_eq!(record.input_checksums.len(), 1);
    assert_eq!(find_entry(&record.input_checksums, "input.c"), Some("fff".to_string()));
}

#[test]
fn test_tool_usage_record_add_diagnostic() {
    let mut record = ToolUsageRecord::new("gcc".to_string(), "1.0".to_string(), vec![], 0);
    record.add_diagnostic("warning: unused variable".to_string());
    record.add_diagnostic("error: undefined reference".to_string());
    assert_eq!(record.diagnostics.len(), 2);
    assert_eq!(record.diagnostics[0], "warning: unused variable");
}

#[test]
fn test_compute_sha256_returns_64_char_hex() {
    let sum = sha256_hex(&b"hello world".to_vec());
    assert_eq!(sum.len(), 64);
    assert!(sum.chars().all(|c| c.is_ascii_hexdigit() && !c.is_ascii_uppercase()));
    assert_eq!(sum, "b94d27b9934d3e08a52e52d7da7dabfac484efe37a5380ee9088f7ace2efcde9");
}

#[test]
fn test_compute_sha256_deterministic() {
    let a = sha256_hex(&b"same bytes".to_vec());
    let b = sha256_hex(&b"same bytes".to_vec());
    assert_eq!(a, b);
    let empty = sha256_hex(&Vec::new());
    assert_eq!(empty, "e3b0c44298fc1c149afbf4c8996fb92427ae41e4649b934ca495991b7852b855");
    assert_ne!(a, sha256_hex(&b"other bytes".to_vec()));
}

#[test]
fn log_lines_are_read_back_in_order() {
    let lines = record_lines("{\"a\":1}\n\n   \n{\"b\":2}\r\n{\"c\":3}");
    assert_eq!(lines, vec!["{\"a\":1}", "{\"b\":2}", "{\"c\":3}"]);
    assert!(record_lines("").is_empty());
}

#[test]
fn logger_keeps_its_path() {
    let logger = ToolQualificationLogger::new("logs/tools.jsonl".to_string());
    assert_eq!(logger.log_path(), "logs/tools.jsonl");
}
