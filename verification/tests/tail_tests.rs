use logutil::helpers::tail_lines;
use logutil::log_data::LogData;
use std::io::{Read, Write};
use tempfile::NamedTempFile;

const PATTERN: &str = r#"^(\S+) - \S+ \[(.*?)\] \d+\.\d+ "(\S+)" "(\S+) (\S+?)(?:\?.*?)? "#;
const DATE_FORMAT: &str = "%d/%b/%Y:%H:%M:%S %z";
const TWO_LINES: &str = r#"127.0.0.1 - - [10/Oct/2023:13:55:36 +0000] 0.000 "GET" "GET /test1 HTTP/1.1" 
127.0.0.2 - - [10/Oct/2023:13:55:37 +0000] 0.000 "GET" "GET /test2 HTTP/1.1" "#;

fn create_test_log_file(content: &str) -> NamedTempFile {
    let mut temp_file = NamedTempFile::new().unwrap();
    temp_file.write_all(format!("{}\n", content).as_bytes()).unwrap();
    temp_file
}

fn file_lines(f: &NamedTempFile) -> Vec<String> {
    let mut text = String::new();
    f.reopen().unwrap().read_to_string(&mut text).unwrap();
    text.lines().map(|l| l.to_string()).collect()
}

fn log_data() -> LogData {
    LogData::with_enabled_tabs(true, true, true, true, true, true)
}

#[test]
fn test_tail_file_count_0() {
    let temp_file = create_test_log_file(TWO_LINES);
    let mut log_data = log_data();
    let result = tail_lines(&file_lines(&temp_file), 0, PATTERN, DATE_FORMAT, &mut log_data, None);
    assert!(result.is_ok());
    assert_eq!(log_data.total_requests, 0);
}

#[test]
fn test_tail_file_count_minus_1() {
    let temp_file = create_test_log_file(TWO_LINES);
    let mut log_data = log_data();
    let result = tail_lines(&file_lines(&temp_file), -1, PATTERN, DATE_FORMAT, &mut log_data, None);
    assert!(result.is_ok());
    assert_eq!(log_data.total_requests, 2);
    assert!(log_data.by_ip.contains_key("127.0.0.1"));
    assert!(log_data.by_ip.contains_key("127.0.0.2"));
}

#[test]
fn test_tail_file_count_1() {
    let temp_file = create_test_log_file(TWO_LINES);
    let mut log_data = log_data();
    let result = tail_lines(&file_lines(&temp_file), 1, PATTERN, DATE_FORMAT, &mut log_data, None);
    assert!(result.is_ok());
    assert_eq!(log_data.total_requests, 1);
    assert!(log_data.by_ip.contains_key("127.0.0.2"));
    assert!(!log_data.by_ip.contains_key("127.0.0.1"));
}

#[test]
fn test_tail_file_with_last_processed_line() {
    let mut temp_file = create_test_log_file(TWO_LINES);
    temp_file
        .write_all(format!("{}\n", r#"127.0.0.3 - - [10/Oct/2023:13:55:38 +0000] 0.000 "GET" "GET /test3 HTTP/1.1" "#).as_bytes())
        .unwrap();
    let mut log_data = log_data();
    let result = tail_lines(&file_lines(&temp_file), 0, PATTERN, DATE_FORMAT, &mut log_data, Some(2));
    assert!(result.is_ok());
    assert_eq!(log_data.total_requests, 1);
    assert!(log_data.by_ip.contains_key("127.0.0.3"));
    assert!(!log_data.by_ip.contains_key("127.0.0.1"));
    assert!(!log_data.by_ip.contains_key("127.0.0.2"));
}

#[test]
fn tail_positions_after_reading() {
    let lines: Vec<String> = TWO_LINES.lines().map(|l| l.to_string()).collect();
    let mut ld = log_data();
    assert_eq!(tail_lines(&lines, 0, PATTERN, DATE_FORMAT, &mut ld, None), Ok(Some(2)));
    assert_eq!(tail_lines(&lines, 5, PATTERN, DATE_FORMAT, &mut ld, Some(9)), Ok(Some(9)));
    assert_eq!(ld.total_requests, 0);
    assert_eq!(tail_lines(&Vec::new(), -1, PATTERN, DATE_FORMAT, &mut ld, None), Ok(None));
    let err = tail_lines(&lines, -1, "(", DATE_FORMAT, &mut ld, None).unwrap_err();
    assert!(err.starts_with("Invalid regex pattern '(': "), "{}", err);
    assert_eq!(ld.total_requests, 0);
}
