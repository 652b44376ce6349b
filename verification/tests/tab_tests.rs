use logutil::keys::{KeyCode, KeyInput};
use logutil::log_data::{LogData, LogEntryParams};
use logutil::memory_db::{LogRecord, MemoryDB};
use logutil::selection::{TabInput, shorten};
use logutil::overview::{OverviewTab, truncate_url, latest_timestamp};
use logutil::requests::{RequestsTab, search_results};
use logutil::detailed::DetailedTab;
use logutil::stat_tabs::{BotsTab, ErrorsTab, PerformanceTab};
use logutil::heatmap::{HeatmapTab, hourly_counts, hourly_data, daily_data, weekly_data, group_labels};
use logutil::security::{
    SecurityTab, detect_brute_force, detect_command_injection, detect_path_traversal, detect_sql_injection,
    detect_xss, filter_suspicious, get_additional_security_detections, get_threat_level,
    highlight_suspicious_patterns, pattern_text, replace_chars, threat_icon,
};
use std::time::SystemTime;

fn key(code: KeyCode) -> KeyInput {
    KeyInput { code, ctrl: false, shift: false }
}

fn ctrl(c: char) -> KeyInput {
    KeyInput { code: KeyCode::Char(c), ctrl: true, shift: false }
}

fn entry(ip: &str, url: &str, line: &str, ts: i64) -> LogEntryParams {
    LogEntryParams {
        ip: ip.to_string(),
        url: url.to_string(),
        log_line: line.to_string(),
        timestamp: ts,
        request_type: "GET".to_string(),
        request_domain: "example.com".to_string(),
        status_code: Some(200),
        response_size: Some(10),
        response_time: None,
        user_agent: None,
    }
}

fn rec(ip: &str, ts: i64, line: &str) -> LogRecord {
    LogRecord {
        id: 0,
        ip: ip.to_string(),
        url: "/x".to_string(),
        timestamp: ts,
        request_type: "GET".to_string(),
        request_domain: "example.com".to_string(),
        status_code: Some(200),
        response_size: None,
        response_time: None,
        user_agent: None,
        log_line: line.to_string(),
        created_at: SystemTime::now(),
    }
}

fn pairs(v: &[(&str, usize)]) -> Vec<(String, usize)> {
    v.iter().map(|(s, n)| (s.to_string(), *n)).collect()
}

#[test]
fn overview_moves_within_the_active_table() {
    let mut t = OverviewTab::new();
    assert_eq!(t.ip_selected, Some(0));
    assert_eq!(t.handle_input(key(KeyCode::Down), 3, 5), TabInput::Handled);
    assert_eq!(t.handle_input(key(KeyCode::Down), 3, 5), TabInput::Handled);
    assert_eq!(t.handle_input(key(KeyCode::Down), 3, 5), TabInput::Handled);
    assert_eq!(t.ip_selected, Some(2));
    t.handle_input(key(KeyCode::Up), 3, 5);
    assert_eq!(t.ip_selected, Some(1));
    t.handle_input(key(KeyCode::Right), 3, 5);
    assert_eq!((t.overview_panel, t.ip_selected, t.url_selected), (1, None, Some(0)));
    t.handle_input(key(KeyCode::Up), 3, 5);
    assert_eq!(t.url_selected, Some(0));
    t.handle_input(key(KeyCode::Left), 3, 5);
    assert_eq!((t.overview_panel, t.ip_selected, t.url_selected), (0, Some(0), None));
    assert_eq!(t.handle_input(ctrl('c'), 3, 5), TabInput::Copy);
    assert_eq!(t.handle_input(key(KeyCode::Char('x')), 3, 5), TabInput::Ignored);
}

#[test]
fn overview_copies_the_selected_ip_or_url() {
    let mut t = OverviewTab::new();
    let ips = pairs(&[("1.1.1.1", 4), ("2.2.2.2", 1)]);
    let urls = pairs(&[("/a", 3)]);
    let c = t.copy_selected_to_clipboard(&ips, &urls).unwrap();
    assert_eq!(c.text, "1.1.1.1");
    assert_eq!(c.message, "IP '1.1.1.1' copied to clipboard");
    t.handle_input(key(KeyCode::Right), 2, 1);
    let c = t.copy_selected_to_clipboard(&ips, &urls).unwrap();
    assert_eq!(c.message, "URL '/a' copied to clipboard");
    assert!(t.copy_selected_to_clipboard(&ips, &Vec::new()).is_none());
}

#[test]
fn urls_and_lines_are_shortened_for_display() {
    assert_eq!(truncate_url("/short", 45), "/short");
    assert_eq!(truncate_url("/abcdefghij", 8), "/abcd...");
    assert_eq!(shorten("abcdef", 3), "abc...");
    assert_eq!(shorten("abc", 3), "abc");
}

#[test]
fn the_latest_timestamp_of_records() {
    assert_eq!(latest_timestamp(&vec![rec("a", 5, "x"), rec("a", 9, "y"), rec("a", 7, "z")]), Some(9));
    assert_eq!(latest_timestamp(&Vec::new()), None);
}

#[test]
fn requests_search_ignores_case() {
    let lines = vec!["GET /Login".to_string(), "POST /api".to_string(), "get /LOGOUT".to_string()];
    let q: Vec<char> = "log".chars().collect();
    assert_eq!(search_results(&lines, &q), vec!["GET /Login".to_string(), "get /LOGOUT".to_string()]);
    assert_eq!(search_results(&lines, &[]), lines);
}

#[test]
fn requests_typing_paging_and_copying() {
    let mut t = RequestsTab::new();
    assert_eq!(t.handle_input(key(KeyCode::Char('a')), 0), TabInput::Handled);
    assert_eq!(t.input, vec!['a']);
    t.handle_input(key(KeyCode::Backspace), 0);
    assert!(t.input.is_empty());
    t.handle_input(key(KeyCode::Right), 100);
    t.handle_input(key(KeyCode::Right), 100);
    assert_eq!(t.current_page, 2);
    assert_eq!(t.fit_page(70), (60, 70));
    assert_eq!(t.total_pages, 3);
    t.handle_input(key(KeyCode::Right), 70);
    assert_eq!(t.fit_page(70), (60, 70));
    assert_eq!(t.current_page, 2);
    for _ in 0..20 {
        t.handle_input(key(KeyCode::Down), 70);
    }
    assert_eq!(t.selected, Some(9));
    assert_eq!(t.fit_page(0), (0, 0));
    assert_eq!(t.total_pages, 1);
    assert_eq!(t.handle_input(key(KeyCode::Enter), 0), TabInput::Copy);
    let results = vec!["one".to_string(), "two".to_string()];
    t.selected = Some(1);
    let c = t.copy_selected_to_clipboard(&results).unwrap();
    assert_eq!((c.text.as_str(), c.message.as_str()), ("two", "Request copied to clipboard"));
    t.selected = Some(5);
    assert!(t.copy_selected_to_clipboard(&results).is_none());
}

#[test]
fn requests_search_over_the_store() {
    let mut db = MemoryDB::new();
    db.insert(rec("1.1.1.1", 1, "GET /Admin"));
    db.insert(rec("2.2.2.2", 2, "GET /home"));
    let mut t = RequestsTab::new();
    t.handle_input(key(KeyCode::Char('a')), 0);
    t.handle_input(key(KeyCode::Char('D')), 0);
    assert_eq!(t.get_search_results(&db), vec!["GET /Admin".to_string()]);
}

#[test]
fn detailed_moves_between_ips_and_their_requests() {
    let mut db = MemoryDB::new();
    db.insert(rec("1.1.1.1", 1, "first"));
    db.insert(rec("1.1.1.1", 2, "second"));
    db.insert(rec("2.2.2.2", 3, "third"));
    let ips = pairs(&[("1.1.1.1", 2), ("2.2.2.2", 1)]);
    let mut t = DetailedTab::new();
    t.handle_input(key(KeyCode::Down), &ips, &db);
    t.handle_input(key(KeyCode::Down), &ips, &db);
    assert_eq!(t.ip_selected, Some(1));
    t.handle_input(key(KeyCode::Up), &ips, &db);
    t.handle_input(key(KeyCode::Right), &ips, &db);
    assert_eq!((t.ip_selected, t.request_selected), (Some(0), Some(0)));
    t.handle_input(key(KeyCode::Down), &ips, &db);
    t.handle_input(key(KeyCode::Down), &ips, &db);
    assert_eq!(t.request_selected, Some(1));
    let copies = t.copy_selected_to_clipboard(&ips, &db);
    assert_eq!(copies.len(), 2);
    assert_eq!((copies[0].text.as_str(), copies[0].message.as_str()), ("1.1.1.1", "Copied IP to clipboard"));
    assert_eq!(copies[1].text, "second");
    assert_eq!(copies[1].message, "Copied request to clipboard:\nsecond");
    t.handle_input(key(KeyCode::Left), &ips, &db);
    assert_eq!((t.ip_selected, t.request_selected), (Some(0), None));
    assert_eq!(t.handle_input(ctrl('c'), &ips, &db), TabInput::Copy);
    let mut none = DetailedTab::new();
    none.handle_input(key(KeyCode::Right), &Vec::new(), &db);
    assert_eq!(none.request_selected, None);
}

#[test]
fn stat_tables_stay_within_their_rows() {
    let mut b = BotsTab::new();
    b.handle_input(key(KeyCode::Down), 2);
    b.handle_input(key(KeyCode::Down), 2);
    assert_eq!(b.selected, Some(1));
    let mut e = ErrorsTab::new();
    e.handle_input(key(KeyCode::Up), 5);
    assert_eq!(e.selected, Some(0));
    assert_eq!(e.handle_input(key(KeyCode::Enter), 5), TabInput::Ignored);
    let mut p = PerformanceTab::new();
    for _ in 0..20 {
        p.handle_input(key(KeyCode::Down), 50);
    }
    assert_eq!(p.selected, Some(9));
}

#[test]
fn heatmap_lists_cycle_and_step() {
    let mut h = HeatmapTab::new();
    h.handle_input(key(KeyCode::Left));
    assert_eq!(h.active_panel, 2);
    h.handle_input(key(KeyCode::Right));
    assert_eq!(h.active_panel, 0);
    h.handle_input(key(KeyCode::Down));
    assert_eq!(h.hourly_selected, Some(0));
    h.handle_input(key(KeyCode::Down));
    assert_eq!(h.hourly_selected, Some(1));
    h.handle_input(key(KeyCode::Right));
    h.handle_input(key(KeyCode::Up));
    assert_eq!(h.daily_selected, Some(usize::MAX));
    assert_eq!(h.handle_input(key(KeyCode::Enter)), TabInput::Ignored);
}

#[test]
fn requests_are_counted_by_hour_day_and_week() {
    // 2009-02-13 23:31:30 UTC and the hour after it, 2009-02-14 00:31:30 UTC.
    let entries = vec![(1234567890i64, 2usize), (1234567890 + 3600, 3), (1234567890 - 60, 1), (-1, 4)];
    assert_eq!(hourly_counts(&entries), vec![(0, 3), (23, 7)]);
    let mut log = LogData::with_enabled_tabs(true, true, true, true, true, true);
    log.add_entry(entry("1.1.1.1", "/a", "l1", 1234567890));
    log.add_entry(entry("1.1.1.1", "/a", "l2", 1234567890));
    log.add_entry(entry("1.1.1.1", "/a", "l3", 1234567890 + 3600));
    log.add_entry(entry("1.1.1.1", "/a", "l4", 1234567890 + 86400 * 7));
    let mut hours = hourly_data(&log);
    hours.sort();
    assert_eq!(hours, vec![(0, 1), (23, 3)]);
    assert_eq!(daily_data(&log), vec![
        ("2009-02-13".to_string(), 2),
        ("2009-02-14".to_string(), 1),
        ("2009-02-20".to_string(), 1),
    ]);
    assert_eq!(weekly_data(&log), vec![("Week 7 of 2009".to_string(), 3), ("Week 8 of 2009".to_string(), 1)]);
}

#[test]
fn labels_are_grouped_in_order() {
    let labels = pairs(&[("b", 1), ("a", 2), ("b", 3), ("c", 0)]);
    assert_eq!(group_labels(&labels), vec![
        ("a".to_string(), 2u64),
        ("b".to_string(), 4),
        ("c".to_string(), 0),
    ]);
}

fn attack_log() -> LogData {
    let mut log = LogData::with_enabled_tabs(true, true, true, true, true, true);
    log.add_entry(entry("1.1.1.1", "/a", "GET /index.php?id=1' union select * from users", 1));
    log.add_entry(entry("1.1.1.1", "/b", "GET /search?q=<script>alert(1)</script>", 2));
    log.add_entry(entry("2.2.2.2", "/c", "GET /../../etc/passwd", 3));
    log.add_entry(entry("2.2.2.2", "/d", "GET /run?cmd=ls;cat", 4));
    log
}

#[test]
fn detections_count_recent_requests_by_kind() {
    let log = attack_log();
    assert_eq!(detect_sql_injection(&log), 1);
    assert_eq!(detect_xss(&log), 1);
    assert_eq!(detect_path_traversal(&log), 1);
    assert_eq!(detect_command_injection(&log), 1);
    assert_eq!(
        get_additional_security_detections(&log),
        "SQL Injection: 1 | XSS: 1 | Path Traversal: 1 | Command Injection: 1"
    );
    let quiet = LogData::with_enabled_tabs(true, true, true, true, true, true);
    assert_eq!(get_additional_security_detections(&quiet), "No additional threats detected");
}

#[test]
fn brute_force_needs_more_than_the_kept_requests() {
    let mut log = LogData::with_enabled_tabs(true, true, true, true, true, true);
    for i in 0..20 {
        log.add_entry(entry("3.3.3.3", "/login", "POST /login", i));
    }
    // Only the last ten requests of an IP are kept, so more than ten never show.
    assert_eq!(detect_brute_force(&log), 0);
}

#[test]
fn threat_levels_and_their_icons() {
    let p = |n: usize| (0..n).map(|i| format!("p{}", i)).collect::<Vec<String>>();
    assert_eq!(get_threat_level(101, &p(0)), "HIGH");
    assert_eq!(get_threat_level(1, &p(4)), "HIGH");
    assert_eq!(get_threat_level(51, &p(0)), "MEDIUM");
    assert_eq!(get_threat_level(1, &p(2)), "MEDIUM");
    assert_eq!(get_threat_level(50, &p(1)), "LOW");
    assert_eq!(threat_icon("HIGH"), "🔴");
    assert_eq!(threat_icon("MEDIUM"), "🟡");
    assert_eq!(threat_icon("LOW"), "🟢");
    assert_eq!(threat_icon("other"), "⚪");
    assert_eq!(pattern_text(&Vec::new()), "Suspicious Activity");
    assert_eq!(pattern_text(&vec!["'".to_string(), "union".to_string()]), "Patterns: ', union");
}

#[test]
fn suspicious_fragments_are_marked() {
    assert_eq!(highlight_suspicious_patterns("GET /home"), "GET /home");
    assert_eq!(highlight_suspicious_patterns("a;b"), "a🟡[;]🟡b");
    assert_eq!(highlight_suspicious_patterns("GET /admin"), "GET /🟡[admin]🟡");
    let s: Vec<char> = "aXbXc".chars().collect();
    let out: String = replace_chars(&s, &['X'], &['-', '-']).into_iter().collect();
    assert_eq!(out, "a--b--c");
}

#[test]
fn security_tab_search_and_navigation() {
    let top = pairs(&[("10.0.0.1", 60), ("192.168.0.1", 5), ("10.0.0.2", 3)]);
    let q: Vec<char> = "10.".chars().collect();
    assert_eq!(filter_suspicious(&top, &q), pairs(&[("10.0.0.1", 60), ("10.0.0.2", 3)]));
    let mut t = SecurityTab::new();
    t.handle_input(key(KeyCode::Down), &top);
    t.handle_input(key(KeyCode::Down), &top);
    t.handle_input(key(KeyCode::Down), &top);
    assert_eq!(t.selected, Some(2));
    assert_eq!(t.get_selected_ip(&top), Some("10.0.0.2".to_string()));
    t.handle_input(key(KeyCode::Char('1')), &top);
    assert_eq!(t.selected, None);
    assert_eq!(t.input, vec!['1']);
    t.handle_input(key(KeyCode::Enter), &top);
    assert!(t.show_log_detail);
    assert_eq!(t.detail_selected, Some(0));
    t.handle_input(key(KeyCode::Down), &top);
    assert_eq!(t.detail_selected, Some(1));
    t.handle_input(key(KeyCode::Esc), &top);
    assert!(!t.show_log_detail);
    t.handle_input(key(KeyCode::Right), &top);
    t.handle_input(key(KeyCode::Right), &top);
    assert_eq!(t.active_panel, 1);
    t.handle_input(key(KeyCode::Char('z')), &top);
    assert_eq!(t.input, vec!['1']);
}

#[test]
fn highlighted_log_lines_of_an_ip() {
    let log = attack_log();
    let lines = SecurityTab::get_highlighted_log_lines(&log, "2.2.2.2");
    assert_eq!(lines, vec!["GET /run?cmd=ls🟡[;]🟡cat".to_string(), "GET /🟡[../]🟡🟡[../]🟡etc/passwd".to_string()]);
    assert!(SecurityTab::get_highlighted_log_lines(&log, "9.9.9.9").is_empty());
}

#[test]
fn hourly_rows_add_up_to_every_counted_request() {
    let entries = vec![(0i64, 5usize), (3600, 2), (7200 + 86400, 1), (-3600, 9)];
    let rows = hourly_counts(&entries);
    assert_eq!(rows, vec![(0, 5), (1, 2), (2, 1), (23, 9)]);
    assert_eq!(rows.iter().map(|r| r.1).sum::<u64>(), 17);
}

#[test]
fn the_console_report_of_top_urls() {
    let rows = pairs(&[("/a", 3), ("/long-path", 12)]);
    let lines = logutil::report::top_table("URL", "URLs", 10, 2, &rows, 5);
    assert_eq!(lines, vec![
        "".to_string(),
        "Top 10 URLs (total unique: 2):".to_string(),
        format!("{:<5} | {:<10}", "URL", "Requests"),
        format!("{:-<5}-+-{:-<10}", "", ""),
        format!("{:<5} | {:<10}", "/a", 3),
        format!("{:<5} | {:<10}", "/long-path", 12),
    ]);
    assert_eq!(logutil::report::pad("ab", 4), "ab  ");
}
