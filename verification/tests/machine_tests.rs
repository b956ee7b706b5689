use scb_vka::machine::{file_identifier, find_value, LineRule, LinuxHSP, WindowsHSP};
use scb_vka::text::{contains, has_utf8_len, split_lines, split_words, starts_with};

#[test]
fn lines_follow_str_lines() {
    let text = "foo\r\nbar\n\nbaz\r";
    let expected: Vec<&str> = text.lines().collect();
    let got = split_lines(text);
    assert_eq!(got, expected);
    assert!(split_lines("").is_empty());
    assert_eq!(split_lines("a\n"), vec!["a".to_string()]);
}

#[test]
fn words_follow_split_whitespace() {
    let text = "  MachineGuid    REG_SZ\t abc  ";
    let expected: Vec<&str> = text.split_whitespace().collect();
    assert_eq!(split_words(text), expected);
}

#[test]
fn prefix_substring_and_length() {
    assert!(starts_with("model name\t: X", "model name"));
    assert!(!starts_with("model", "model name"));
    assert!(contains("    MachineGuid    REG_SZ", "MachineGuid"));
    assert!(!contains("Machine", "MachineGuid"));
    assert!(has_utf8_len("é", 2));
    assert!(!has_utf8_len("é", 1));
}

#[test]
fn file_identifiers_are_trimmed_and_filtered() {
    assert_eq!(file_identifier("  abc123\n", false), Some("abc123".to_string()));
    assert_eq!(file_identifier(" \n", false), None);
    assert_eq!(file_identifier("None\n", true), None);
    assert_eq!(file_identifier("None\n", false), Some("None".to_string()));
}

#[test]
fn cpuinfo_value_is_first_serial_or_model_name() {
    let cpuinfo = "processor\t: 0\nmodel name\t: Intel(R) Xeon(R)\nmodel name\t: Other\n";
    assert_eq!(
        find_value(cpuinfo, LineRule::CpuInfo, false),
        Some("Intel(R) Xeon(R)".to_string())
    );
    assert_eq!(find_value("Serial : a:b\n", LineRule::CpuInfo, false), Some("a".to_string()));
    assert_eq!(
        find_value("model name :   \nSerial\t: 0000\n", LineRule::CpuInfo, false),
        Some("0000".to_string())
    );
    assert_eq!(find_value("model name\n", LineRule::CpuInfo, false), None);
}

#[test]
fn windows_outputs_are_parsed() {
    let guid = "12345678-1234-1234-1234-123456789abc";
    let reg = format!(
        "\r\nHKEY_LOCAL_MACHINE\\SOFTWARE\\Microsoft\\Cryptography\r\n    MachineGuid    REG_SZ    {guid}\r\n"
    );
    assert_eq!(find_value(&reg, LineRule::MachineGuid, false), Some(guid.to_string()));
    let cs = format!("UUID  \r\n{guid}  \r\n");
    assert_eq!(find_value(&cs, LineRule::Uuid, true), Some(guid.to_string()));
    assert_eq!(find_value(guid, LineRule::Uuid, true), None);
    let cpu = "ProcessorId\r\nBFEBFBFF000906EA\r\n";
    assert_eq!(find_value(cpu, LineRule::NonEmpty, true), Some("BFEBFBFF000906EA".to_string()));
    assert_eq!(find_value("", LineRule::NonEmpty, true), None);
}

#[test]
fn providers_report_availability() {
    let linux = LinuxHSP::new(Some("abc\n"), None, Some("None"), None);
    assert!(linux.is_available());
    assert_eq!(linux.provider_name(), "Linux Machine ID");
    let empty = LinuxHSP::new(Some("\n"), Some("None"), None, Some("flags: x\n"));
    assert!(!empty.is_available());
    let windows = WindowsHSP::new(None, None, Some("ProcessorId\n"));
    assert!(!windows.is_available());
    assert_eq!(windows.provider_name(), "Windows Machine GUID");
    let windows = WindowsHSP::new(None, None, Some("ProcessorId\nABC\n"));
    assert!(windows.is_available());
}
