use logutil::memory_db::{MemoryDB, LogRecord};
use std::time::SystemTime;

fn create_test_record(id: u64, ip: &str, url: &str, status_code: Option<u16>) -> LogRecord {
    LogRecord {
        id,
        ip: ip.to_string(),
        url: url.to_string(),
        timestamp: 1234567890,
        request_type: "GET".to_string(),
        request_domain: "example.com".to_string(),
        status_code,
        response_size: Some(1024),
        response_time: Some(0.1f32.to_bits()),
        user_agent: Some("test-agent".to_string()),
        log_line: format!("{} - - [10/Oct/2023:13:55:36 +0000] 0.000 \"GET\" \"GET {} HTTP/1.1\"", ip, url),
        created_at: SystemTime::now(),
    }
}

#[test]
fn test_insert_and_find_by_ip() {
    let mut db = MemoryDB::new();
    
    let record1 = create_test_record(1, "192.168.1.1", "/test1", Some(200));
    let record2 = create_test_record(2, "192.168.1.1", "/test2", Some(404));
    let record3 = create_test_record(3, "192.168.1.2", "/test3", Some(200));
    
    db.insert(record1);
    db.insert(record2);
    db.insert(record3);
    
    let results = db.find_by_ip("192.168.1.1");
    assert_eq!(results.len(), 2);
    
    let results = db.find_by_ip("192.168.1.2");
    assert_eq!(results.len(), 1);
    
    let results = db.find_by_ip("192.168.1.3");
    assert_eq!(results.len(), 0);
}

#[test]
fn test_insert_and_find_by_url() {
    let mut db = MemoryDB::new();
    
    let record1 = create_test_record(1, "192.168.1.1", "/test1", Some(200));
    let record2 = create_test_record(2, "192.168.1.2", "/test1", Some(404));
    let record3 = create_test_record(3, "192.168.1.3", "/test2", Some(200));
    
    db.insert(record1);
    db.insert(record2);
    db.insert(record3);
    
    let results = db.find_by_url("/test1");
    assert_eq!(results.len(), 2);
    
    let results = db.find_by_url("/test2");
    assert_eq!(results.len(), 1);
}

#[test]
fn test_get_stats() {
    let mut db = MemoryDB::new();
    
    let record1 = create_test_record(1, "192.168.1.1", "/test1", Some(200));
    let record2 = create_test_record(2, "192.168.1.1", "/test2", Some(404));
    let record3 = create_test_record(3, "192.168.1.2", "/test1", Some(200));
    
    db.insert(record1);
    db.insert(record2);
    db.insert(record3);
    
    let stats = db.get_stats();
    assert_eq!(stats.total_records, 3);
    assert_eq!(stats.unique_ips, 2);
    assert_eq!(stats.unique_urls, 2);
}

#[test]
fn test_get_top_ips() {
    let mut db = MemoryDB::new();
    for i in 1..=3 {
        let record = create_test_record(i, "192.168.1.1", &format!("/test{}", i), Some(200));
        db.insert(record);
    }
    for i in 4..=5 {
        let record = create_test_record(i, "192.168.1.2", &format!("/test{}", i), Some(200));
        db.insert(record);
    }
    let record = create_test_record(6, "192.168.1.3", "/test6", Some(200));
    db.insert(record);
    
    let top_ips = db.get_top_ips(3);
    assert_eq!(top_ips.len(), 3);
    assert_eq!(top_ips[0].0, "192.168.1.1");
    assert_eq!(top_ips[0].1, 3);
    
    assert_eq!(top_ips[1].0, "192.168.1.2");
    assert_eq!(top_ips[1].1, 2);
    
    assert_eq!(top_ips[2].0, "192.168.1.3");
    assert_eq!(top_ips[2].1, 1);
}

#[test]
fn test_get_top_urls() {
    let mut db = MemoryDB::new();
    for i in 1..=3 {
        let record = create_test_record(i, &format!("192.168.1.{}", i), "/test1", Some(200));
        db.insert(record);
    }
    for i in 4..=5 {
        let record = create_test_record(i, &format!("192.168.1.{}", i), "/test2", Some(200));
        db.insert(record);
    }
    let record = create_test_record(6, "192.168.1.6", "/test3", Some(200));
    db.insert(record);
    
    let top_urls = db.get_top_urls(3);
    assert_eq!(top_urls.len(), 3);
    assert_eq!(top_urls[0].0, "/test1");
    assert_eq!(top_urls[0].1, 3);
    
    assert_eq!(top_urls[1].0, "/test2");
    assert_eq!(top_urls[1].1, 2);
    
    assert_eq!(top_urls[2].0, "/test3");
    assert_eq!(top_urls[2].1, 1);
}

#[test]
fn test_get_suspicious_ips() {
    let mut db = MemoryDB::new();
    let suspicious_patterns = [
        "admin",
        "wp-admin", 
        "phpmyadmin",
        "config",
        "backup",
        "union select",
        "script",
        "javascript"
    ];
    
    for (i, pattern) in suspicious_patterns.iter().enumerate() {
        let log_line = format!("192.168.1.{} - - [10/Oct/2023:13:55:36 +0000] 0.000 \"GET\" \"GET /{} HTTP/1.1\"", i + 1, pattern);
        let record = LogRecord {
            id: i as u64 + 1,
            ip: format!("192.168.1.{}", i + 1),
            url: format!("/{}", pattern),
            timestamp: 1234567890,
            request_type: "GET".to_string(),
            request_domain: "example.com".to_string(),
            status_code: Some(200),
            response_size: Some(1024),
            response_time: Some(0.1f32.to_bits()),
            user_agent: Some("test-agent".to_string()),
            log_line,
            created_at: SystemTime::now(),
        };
        db.insert(record);
    }
    
    let suspicious_ips = db.get_suspicious_ips();
    assert!(!suspicious_ips.is_empty());
    assert!(suspicious_ips.len() > 0);
}

#[test]
fn test_get_attack_patterns() {
    let mut db = MemoryDB::new();
    let attack_patterns = [
        "admin",
        "wp-admin",
        "phpmyadmin", 
        "config",
        "backup",
        "union select",
        "drop table",
        "insert into"
    ];
    
    for (i, pattern) in attack_patterns.iter().enumerate() {
        let log_line = format!("192.168.1.{} - - [10/Oct/2023:13:55:36 +0000] 0.000 \"GET\" \"GET /{} HTTP/1.1\"", i + 1, pattern);
        let record = LogRecord {
            id: i as u64 + 1,
            ip: format!("192.168.1.{}", i + 1),
            url: format!("/{}", pattern),
            timestamp: 1234567890,
            request_type: "GET".to_string(),
            request_domain: "example.com".to_string(),
            status_code: Some(200),
            response_size: Some(1024),
            response_time: Some(0.1f32.to_bits()),
            user_agent: Some("test-agent".to_string()),
            log_line,
            created_at: SystemTime::now(),
        };
        db.insert(record);
    }
    
    let attack_patterns_result = db.get_attack_patterns();
    assert!(!attack_patterns_result.is_empty());
}

#[test]
fn test_get_suspicious_patterns_for_ip() {
    let mut db = MemoryDB::new();
    let suspicious_patterns = ["admin", "script", "javascript", "union select"];
    
    for (i, pattern) in suspicious_patterns.iter().enumerate() {
        let log_line = format!("192.168.1.1 - - [10/Oct/2023:13:55:36 +0000] 0.000 \"GET\" \"GET /{} HTTP/1.1\"", pattern);
        let record = LogRecord {
            id: i as u64 + 1,
            ip: "192.168.1.1".to_string(),
            url: format!("/{}", pattern),
            timestamp: 1234567890,
            request_type: "GET".to_string(),
            request_domain: "example.com".to_string(),
            status_code: Some(200),
            response_size: Some(1024),
            response_time: Some(0.1f32.to_bits()),
            user_agent: Some("test-agent".to_string()),
            log_line,
            created_at: SystemTime::now(),
        };
        db.insert(record);
    }
    
    let patterns = db.get_suspicious_patterns_for_ip("192.168.1.1");
    assert!(!patterns.is_empty());
    assert!(patterns.len() >= suspicious_patterns.len());
}

#[test]
fn test_duplicate_prevention() {
    let mut db = MemoryDB::new();
    let record1 = LogRecord {
        id: 1,
        ip: "192.168.1.1".to_string(),
        url: "/test".to_string(),
        timestamp: 1234567890,
        request_type: "GET".to_string(),
        request_domain: "example.com".to_string(),
        status_code: Some(200),
        response_size: Some(1024),
        response_time: Some(0.1f32.to_bits()),
        user_agent: Some("test-agent".to_string()),
        log_line: "identical log line".to_string(),
        created_at: SystemTime::now(),
    };
    
    let record2 = LogRecord {
        id: 2,
        ip: "192.168.1.2".to_string(),
        url: "/test2".to_string(),
        timestamp: 1234567890,
        request_type: "GET".to_string(),
        request_domain: "example.com".to_string(),
        status_code: Some(200),
        response_size: Some(1024),
        response_time: Some(0.1f32.to_bits()),
        user_agent: Some("test-agent".to_string()),
        log_line: "identical log line".to_string(),
        created_at: SystemTime::now(),
    };
    
    db.insert(record1);
    db.insert(record2);
    let stats = db.get_stats();
    assert_eq!(stats.total_records, 2);
}
fn record_created_ago(ip: &str, seconds: u64) -> LogRecord {
    let mut r = create_test_record(0, ip, "/old", Some(200));
    r.created_at = SystemTime::now() - std::time::Duration::from_secs(seconds);
    r
}

#[test]
fn records_older_than_twenty_minutes_are_swept_above_ten_thousand() {
    let mut db = MemoryDB::new();
    for _ in 0..10_000 {
        db.insert(record_created_ago("10.0.0.1", 1800));
    }
    db.insert(record_created_ago("10.0.0.2", 60));
    assert_eq!(db.get_records_count(), 10_001);
    db.insert(create_test_record(0, "10.0.0.3", "/new", Some(200)));
    assert_eq!(db.get_records_count(), 2);
    assert!(db.find_by_ip("10.0.0.1").is_empty());
    assert_eq!(db.find_by_ip("10.0.0.2").len(), 1);
    assert_eq!(db.find_by_ip("10.0.0.3").len(), 1);
}

#[test]
fn old_records_are_kept_at_ten_thousand_or_fewer() {
    let mut db = MemoryDB::new();
    for _ in 0..10_000 {
        db.insert(record_created_ago("10.0.0.1", 1800));
    }
    db.insert(create_test_record(0, "10.0.0.3", "/new", Some(200)));
    assert_eq!(db.get_records_count(), 10_001);
}

#[test]
fn old_records_are_kept_with_the_cleanup_off() {
    let mut db = MemoryDB::new();
    db.set_auto_cleanup(false);
    for _ in 0..10_002 {
        db.insert(record_created_ago("10.0.0.1", 1800));
    }
    db.insert(create_test_record(0, "10.0.0.3", "/new", Some(200)));
    assert_eq!(db.get_records_count(), 10_003);
}

#[test]
fn every_insert_above_ten_thousand_sweeps_old_records() {
    let mut db = MemoryDB::new();
    for _ in 0..10_001 {
        db.insert(create_test_record(0, "10.0.0.1", "/fresh", Some(200)));
    }
    db.insert(create_test_record(0, "10.0.0.1", "/fresh", Some(200)));
    for _ in 0..5 {
        db.insert(record_created_ago("10.0.0.2", 1800));
    }
    assert_eq!(db.get_records_count(), 10_003);
    assert_eq!(db.find_by_ip("10.0.0.2").len(), 1);
}
