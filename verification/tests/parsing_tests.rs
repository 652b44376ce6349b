use logutil::helpers::{
    process_line, validate_regex_pattern, compile_pattern, extract_captures_safe, parse_datetime_safe,
    extract_additional_data_safe, DEFAULT_RESPONSE_TIME_BITS,
};
use logutil::file_reader::FileReader;
use logutil::log_data::LogData;
use std::path::PathBuf;

const PATTERN: &str = r#"^(\S+) - \S+ \[(.*?)\] \d+\.\d+ "(\S+)" "(\S+) (\S+?)(?:\?.*?)? "#;
const DATE_FORMAT: &str = "%d/%b/%Y:%H:%M:%S %z";

#[test]
fn test_process_line() {
    let mut log_data = LogData::with_enabled_tabs(true, true, true, true, true, true);
    let test_line = r#"127.0.0.1 - - [10/Oct/2023:13:55:36 +0000] 0.000 "GET" "GET /test HTTP/1.1" "#;
    process_line(test_line, PATTERN, DATE_FORMAT, &mut log_data).unwrap();
    assert_eq!(log_data.total_requests, 1);
    assert!(log_data.by_ip.contains_key("127.0.0.1"));
    assert!(log_data.by_url.contains_key("/test"));
}

#[test]
fn test_process_line_invalid_format() {
    let mut log_data = LogData::with_enabled_tabs(true, true, true, true, true, true);
    process_line("invalid log line format", PATTERN, DATE_FORMAT, &mut log_data).unwrap();
    assert_eq!(log_data.total_requests, 0);
}

#[test]
fn process_line_reports_a_bad_pattern() {
    let mut log_data = LogData::with_enabled_tabs(true, true, true, true, true, true);
    let err = process_line("x", "(unclosed", DATE_FORMAT, &mut log_data).unwrap_err();
    assert!(err.starts_with("Failed to compile regex pattern '(unclosed': "), "{}", err);
    assert!(err.len() > "Failed to compile regex pattern '(unclosed': ".len());
    assert_eq!(log_data.total_requests, 0);
}

#[test]
fn process_line_skips_an_unreadable_date() {
    let mut log_data = LogData::with_enabled_tabs(true, true, true, true, true, true);
    let line = r#"127.0.0.1 - - [yesterday] 0.000 "GET" "GET /test HTTP/1.1" "#;
    process_line(line, PATTERN, DATE_FORMAT, &mut log_data).unwrap();
    assert_eq!(log_data.total_requests, 0);
}

#[test]
fn validation_messages() {
    assert!(validate_regex_pattern(PATTERN).is_ok());
    let err = validate_regex_pattern("a(").unwrap_err();
    assert!(err.starts_with("Invalid regex pattern 'a(': "), "{}", err);
    assert!(compile_pattern("[").is_err());
}

#[test]
fn captures_are_the_crates_groups() {
    let re = compile_pattern(PATTERN).ok().unwrap();
    let line = r#"10.0.0.1 - - [10/Oct/2023:13:55:36 +0000] 0.123 "example.com" "POST /login?x=1 HTTP/1.1" "#;
    let reader = FileReader::new(PathBuf::from("a.log"), PATTERN.to_string(), DATE_FORMAT.to_string());
    let p = reader.parse_line(line, &re).unwrap().unwrap();
    assert_eq!(p.ip, "10.0.0.1");
    assert_eq!(p.request_type, "POST");
    assert_eq!(p.url, "/login");
    assert!(reader.parse_line("no match here", &re).unwrap().is_none());
    let groups: Vec<Option<String>> = vec![
        Some(line.to_string()),
        Some("10.0.0.1".to_string()),
        Some("10/Oct/2023:13:55:36 +0000".to_string()),
        Some("example.com".to_string()),
        Some("POST".to_string()),
        Some("/login".to_string()),
    ];
    let fields = extract_captures_safe(&groups).unwrap();
    assert_eq!(fields.0, "10.0.0.1");
    assert_eq!(fields.1, "10/Oct/2023:13:55:36 +0000");
    assert_eq!(fields.2, "example.com");
    assert_eq!(fields.3, "POST");
    assert_eq!(fields.4, "/login");
}

#[test]
fn empty_required_groups_are_reported_in_order() {
    let g = |v: Vec<&str>| -> Vec<Option<String>> {
        v.into_iter().map(|s| if s.is_empty() { None } else { Some(s.to_string()) }).collect()
    };
    assert_eq!(extract_captures_safe(&g(vec!["all", "", "d", "", "GET", "/"])).unwrap_err(), "IP address is empty");
    assert_eq!(extract_captures_safe(&g(vec!["all", "1.2.3.4", "", "", "GET", "/"])).unwrap_err(), "Datetime is empty");
    assert_eq!(extract_captures_safe(&g(vec!["all", "1.2.3.4", "d", "", "", "/"])).unwrap_err(), "Request type is empty");
    assert_eq!(extract_captures_safe(&g(vec!["all", "1.2.3.4", "d", "", "GET"])).unwrap_err(), "URL is empty");
}

#[test]
fn dates_fall_back_to_common_formats() {
    assert_eq!(parse_datetime_safe("10/Oct/2023:13:55:36 +0000", DATE_FORMAT), Ok(1696946136));
    assert_eq!(parse_datetime_safe("10/Oct/2023:13:55:36 +0000", "%Y"), Ok(1696946136));
    assert_eq!(parse_datetime_safe("2023-10-10 13:55:36 +0200", "%d"), Ok(1696938936));
    let err = parse_datetime_safe("soon", "%Y").unwrap_err();
    assert!(err.starts_with("Failed to parse datetime 'soon' with formats '%Y', '%d/%b/%Y:%H:%M:%S %z', '%Y-%m-%d %H:%M:%S %z'. Errors: "), "{}", err);
}

#[test]
fn status_size_and_agent_come_from_the_quoted_layout() {
    let line = r#"1.2.3.4 - - [10/Oct/2023:13:55:36 +0000] "GET /a HTTP/1.1" 404 512 "-" " Mozilla/5.0 ""#;
    let (status, size, time, agent) = extract_additional_data_safe(line);
    assert_eq!(status, Some(404));
    assert_eq!(size, Some(512));
    assert_eq!(time, Some(0.1f64.to_bits()));
    assert_eq!(DEFAULT_RESPONSE_TIME_BITS, 0.1f64.to_bits());
    assert_eq!(agent.as_deref(), Some("Mozilla/5.0"));
    let dash = r#"1.2.3.4 - - [x] "GET / HTTP/1.1" 200 1 "-" "-""#;
    assert_eq!(extract_additional_data_safe(dash).3, None);
    let plain = "no brackets here";
    assert_eq!(extract_additional_data_safe(plain), (None, None, Some(0.1f64.to_bits()), None));
}

#[test]
fn request_lines_give_method_target_and_domain() {
    let r = FileReader::new(PathBuf::from("access.log"), PATTERN.to_string(), "%d/%b/%Y:%H:%M:%S".to_string());
    let t = |s: &str| r.parse_request_line(s);
    assert_eq!(t("GET /index.html"), Ok(("GET".to_string(), "/index.html".to_string(), "".to_string())));
    assert_eq!(t("GET http://example.com/a/b"), Ok(("GET".to_string(), "http://example.com/a/b".to_string(), "example.com".to_string())));
    assert_eq!(t("GET https://example.org"), Ok(("GET".to_string(), "https://example.org".to_string(), "example.org".to_string())));
    assert_eq!(t("GET host.net/x"), Ok(("GET".to_string(), "host.net/x".to_string(), "host.net".to_string())));
    assert_eq!(t("GET nowhere"), Ok(("GET".to_string(), "nowhere".to_string(), "unknown".to_string())));
    assert_eq!(t("GET"), Err("Invalid request line format".to_string()));
}

#[test]
fn file_reader_turns_lines_into_records() {
    let pattern = r#"^(\S+) - \S+ \[(.*?)\] "(\S+)" "(\S+) (\S+)" (\d+) (\d+) ([\d.]+) "(.*)"$"#;
    let r = FileReader::new(PathBuf::from("access.log"), pattern.to_string(), "%d/%b/%Y:%H:%M:%S %z".to_string());
    let line = r#"5.6.7.8 - - [10/Oct/2023:13:55:36 +0000] "site" "GET /a/b" 301 77 0.25 "curl/8""#;
    let (rec, rt) = r.process_line_to_record(line).unwrap();
    assert_eq!(rec.id, 0);
    assert_eq!(rec.ip, "5.6.7.8");
    assert_eq!(rec.url, "/a/b");
    assert_eq!(rec.request_type, "GET");
    assert_eq!(rec.request_domain, "");
    assert_eq!(rec.status_code, Some(301));
    assert_eq!(rec.response_size, Some(77));
    assert_eq!(rec.response_time, None);
    assert_eq!(rt.as_deref(), Some("0.25"));
    assert_eq!(rec.user_agent.as_deref(), Some("curl/8"));
    assert_eq!(rec.log_line, line);
    assert_eq!(rec.timestamp, 1696946136);
    assert!(r.process_line_to_record("garbage").is_none());
    let bad_date = r#"5.6.7.8 - - [today] "site" "GET /a/b" 301 77 0.25 "curl/8""#;
    let re = compile_pattern(pattern).ok().unwrap();
    let err = r.parse_line(bad_date, &re).unwrap_err();
    assert!(err.starts_with("Failed to parse timestamp: "), "{}", err);
    assert!(r.process_line_to_record(bad_date).is_none());
    let broken = FileReader::new(PathBuf::from("access.log"), "(".to_string(), "%s".to_string());
    assert!(broken.process_line_to_record(line).is_none());
}

#[test]
fn file_reader_remembers_its_position() {
    let mut r = FileReader::new(PathBuf::from("a.log"), PATTERN.to_string(), DATE_FORMAT.to_string());
    assert_eq!(r.last_processed_line(), 0);
    r.set_last_processed_line(42);
    assert_eq!(r.last_processed_line(), 42);
    assert_eq!(r.file_path(), &PathBuf::from("a.log"));
}
