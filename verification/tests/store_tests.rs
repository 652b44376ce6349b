use logutil::memory_db::{MemoryDB, LogRecord, DBStats};
use std::time::SystemTime;

fn rec(ip: &str, url: &str, status: Option<u16>, agent: Option<&str>, ts: i64, line: &str) -> LogRecord {
    LogRecord {
        id: 0,
        ip: ip.to_string(),
        url: url.to_string(),
        timestamp: ts,
        request_type: "GET".to_string(),
        request_domain: "example.com".to_string(),
        status_code: status,
        response_size: Some(100),
        response_time: None,
        user_agent: agent.map(|a| a.to_string()),
        log_line: line.to_string(),
        created_at: SystemTime::now(),
    }
}

#[test]
fn ids_count_up_from_one_and_records_come_back_by_ip_in_order() {
    let mut db = MemoryDB::new();
    assert_eq!(db.insert(rec("1.1.1.1", "/a", Some(200), None, 1, "first")), 1);
    assert_eq!(db.insert(rec("2.2.2.2", "/b", Some(200), None, 2, "second")), 2);
    assert_eq!(db.insert(rec("1.1.1.1", "/c", Some(200), None, 3, "third")), 3);
    let found = db.find_by_ip("1.1.1.1");
    let lines: Vec<&str> = found.iter().map(|r| r.log_line.as_str()).collect();
    assert_eq!(lines, vec!["first", "third"]);
    assert!(found.iter().all(|r| r.ip == "1.1.1.1"));
    assert_eq!(db.find_by_url("/b")[0].log_line, "second");
    assert!(db.find_by_url("/zzz").is_empty());
}

#[test]
fn eviction_keeps_the_store_within_its_limit() {
    let mut db = MemoryDB::new();
    db.set_max_records(4);
    for i in 0..10 {
        db.insert(rec(&format!("10.0.0.{}", i), "/x", Some(200), None, i, "l"));
        assert!(db.get_records_count() <= 4);
    }
    let stats = db.get_stats();
    assert_eq!(stats.total_records, 10);
    assert_eq!(stats.total_requests, 10);
    assert_eq!(stats.total_response_size, 1000);
    for r in db.get_all_records() {
        assert_eq!(db.find_by_ip(&r.ip).len(), 1);
    }
}

#[test]
fn a_limit_below_two_does_not_evict() {
    let mut db = MemoryDB::new();
    db.set_max_records(1);
    db.insert(rec("a", "/", None, None, 0, "l"));
    db.insert(rec("b", "/", None, None, 0, "l"));
    assert_eq!(db.get_records_count(), 2);
}

#[test]
fn clear_restarts_ids() {
    let mut db = MemoryDB::new();
    db.insert(rec("a", "/", None, None, 0, "l"));
    db.clear();
    assert_eq!(db.get_records_count(), 0);
    let s: DBStats = db.get_stats();
    assert_eq!((s.total_records, s.unique_ips, s.unique_urls), (0, 0, 0));
    assert_eq!(db.insert(rec("a", "/", None, None, 0, "l")), 1);
}

#[test]
fn error_statistics_agree() {
    let mut db = MemoryDB::new();
    db.insert(rec("a", "/1", Some(404), None, 0, "l"));
    db.insert(rec("a", "/2", Some(500), None, 0, "l"));
    db.insert(rec("b", "/3", Some(403), None, 0, "l"));
    db.insert(rec("c", "/4", Some(200), None, 0, "l"));
    db.insert(rec("d", "/5", None, None, 0, "l"));
    assert_eq!(db.get_error_stats(), (3, 3, 2));
    let codes = db.get_top_status_codes(10);
    assert_eq!(codes.len(), 4);
    assert!(codes.iter().all(|(_, n)| *n == 1));
    let mut names: Vec<String> = codes.iter().map(|(c, _)| c.clone()).collect();
    names.sort();
    assert_eq!(names, vec!["200", "403", "404", "500"]);
    assert_eq!(db.get_top_status_codes(1).len(), 1);
}

#[test]
fn bots_and_agents() {
    let mut db = MemoryDB::new();
    db.insert(rec("a", "/1", None, Some("Googlebot/2.1"), 0, "l"));
    db.insert(rec("a", "/2", None, Some("Googlebot/2.1"), 0, "l"));
    db.insert(rec("b", "/1", None, Some("SomeCrawler"), 0, "l"));
    db.insert(rec("c", "/9", None, Some("Mozilla"), 0, "l"));
    db.insert(rec("d", "/9", None, None, 0, "l"));
    assert_eq!(db.get_bot_stats(), (2, 3, 2));
    let agents = db.get_top_user_agents(2);
    assert_eq!(agents[0], ("Googlebot/2.1".to_string(), 2));
    assert_eq!(agents.len(), 2);
}

#[test]
fn time_series_counts_per_interval_in_order() {
    let mut db = MemoryDB::new();
    for ts in [0i64, 10, 3599, 3600, 7300, -1, -3601] {
        db.insert(rec("a", "/", None, None, ts, "l"));
    }
    assert_eq!(db.get_time_series_data(3600), vec![(-1, 1), (0, 4), (1, 1), (2, 1)]);
    assert_eq!(db.get_time_series_data(-3600), vec![(-2, 1), (-1, 1), (0, 4), (1, 1)]);
}

#[test]
fn suspicious_requests_and_patterns() {
    let mut db = MemoryDB::new();
    db.insert(rec("a", "/", Some(500), None, 0, "plain"));
    db.insert(rec("b", "/", Some(200), None, 0, "GET /wp-admin/"));
    db.insert(rec("b", "/", Some(200), None, 0, "GET /Backup.zip"));
    db.insert(rec("c", "/", Some(200), None, 0, "GET /home"));
    let ips = db.get_suspicious_ips();
    assert_eq!(ips[0], ("b".to_string(), 2));
    assert_eq!(ips[1], ("a".to_string(), 1));
    assert_eq!(ips.len(), 2);
    let pats = db.get_attack_patterns();
    assert_eq!(pats, vec![("admin".to_string(), 1), ("wp-admin".to_string(), 1), ("backup".to_string(), 1)]);
    assert_eq!(db.get_suspicious_patterns_for_ip("b"), vec!["admin", "wp-admin", "backup"]);
    assert!(db.get_suspicious_patterns_for_ip("c").is_empty());
}

#[test]
fn memory_estimate_counts_the_indexes() {
    let mut db = MemoryDB::default();
    assert_eq!(db.get_memory_usage(), 0);
    db.insert(rec("a", "/u", Some(404), None, 0, "l"));
    let per_record = std::mem::size_of::<LogRecord>();
    assert_eq!(db.get_memory_usage(), per_record + 64 + 128 + 32 + 16);
}

#[test]
fn eviction_removes_the_oldest_records_first() {
    let mut db = MemoryDB::new();
    db.set_max_records(4);
    for i in 0..5 {
        db.insert(rec(&format!("10.0.0.{}", i), "/x", Some(200), None, i, "l"));
    }
    let mut ips: Vec<String> = db.get_all_records().into_iter().map(|r| r.ip).collect();
    ips.sort();
    assert_eq!(ips, vec!["10.0.0.2", "10.0.0.3", "10.0.0.4"]);
    assert!(db.find_by_ip("10.0.0.0").is_empty());
    assert!(db.find_by_ip("10.0.0.1").is_empty());
}

#[test]
fn time_series_counts_add_up_to_the_records_read() {
    let mut db = MemoryDB::new();
    for i in 0..6000i64 {
        db.insert(rec("a", "/", None, None, i * 7, "l"));
    }
    let series = db.get_time_series_data(60);
    let total: usize = series.iter().map(|p| p.1).sum();
    assert_eq!(total, 5000);
    assert!(series.windows(2).all(|w| w[0].0 < w[1].0));
}

#[test]
fn top_lists_are_ordered_by_count() {
    let mut db = MemoryDB::new();
    for (ip, n) in [("a", 1), ("b", 3), ("c", 2), ("d", 5)] {
        for _ in 0..n {
            db.insert(rec(ip, "/", None, None, 0, "l"));
        }
    }
    let top = db.get_top_ips(3);
    assert_eq!(top, vec![("d".to_string(), 5), ("b".to_string(), 3), ("c".to_string(), 2)]);
}
