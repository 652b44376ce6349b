use logutil::log_data::{LogData, LogEntryParams};

#[test]
fn test_add_entry() {
    let mut log_data = LogData::with_enabled_tabs(true, true, true, true, true, true);

    let params = LogEntryParams {
        ip: "192.168.1.1".to_string(),
        url: "/test".to_string(),
        log_line: "test log line".to_string(),
        timestamp: 1234567890,
        request_type: "GET".to_string(),
        request_domain: "example.com".to_string(),
        status_code: Some(200),
        response_size: Some(1024),
        response_time: Some(0.1f64.to_bits()),
        user_agent: Some("test-agent".to_string()),
    };

    log_data.add_entry(params);

    assert_eq!(log_data.total_requests, 1);
    assert!(log_data.by_ip.contains_key("192.168.1.1"));
    assert!(log_data.by_url.contains_key("/test"));
}

#[test]
fn test_get_top_n() {
    let mut log_data = LogData::with_enabled_tabs(true, true, true, true, true, true);

        for i in 1..=5 {
        let params = LogEntryParams {
            ip: format!("192.168.1.{}", i),
            url: format!("/test{}", i),
            log_line: format!("test log line {}", i),
            timestamp: 1234567890 + i,
            request_type: "GET".to_string(),
            request_domain: "example.com".to_string(),
            status_code: Some(200),
            response_size: Some(1024),
            response_time: Some(0.1f64.to_bits()),
            user_agent: Some("test-agent".to_string()),
        };
        log_data.add_entry(params);
    }

    let (top_ips, top_urls) = log_data.get_top_n(3);
    assert_eq!(top_ips.len(), 3);
    assert_eq!(top_urls.len(), 3);
}

#[test]
fn test_get_unique_counts() {
    let mut log_data = LogData::with_enabled_tabs(true, true, true, true, true, true);

    let params = LogEntryParams {
        ip: "192.168.1.1".to_string(),
        url: "/test".to_string(),
        log_line: "test log line".to_string(),
        timestamp: 1234567890,
        request_type: "GET".to_string(),
        request_domain: "example.com".to_string(),
        status_code: Some(200),
        response_size: Some(1024),
        response_time: Some(0.1f64.to_bits()),
        user_agent: Some("test-agent".to_string()),
    };

    log_data.add_entry(params);

    let (unique_ips, unique_urls) = log_data.get_unique_counts();
    assert_eq!(unique_ips, 1);
    assert_eq!(unique_urls, 1);
}

#[test]
fn test_get_last_requests() {
    let mut log_data = LogData::with_enabled_tabs(true, true, true, true, true, true);

        for i in 1..=3 {
        let params = LogEntryParams {
            ip: "192.168.1.1".to_string(),
            url: format!("/test{}", i),
            log_line: format!("test log line {}", i),
            timestamp: 1234567890 + i,
            request_type: "GET".to_string(),
            request_domain: "example.com".to_string(),
            status_code: Some(200),
            response_size: Some(1024),
            response_time: Some(0.1f64.to_bits()),
            user_agent: Some("test-agent".to_string()),
        };
        log_data.add_entry(params);
    }

    let last_requests = log_data.get_last_requests("192.168.1.1");
    assert_eq!(last_requests.len(), 3);
}

#[test]
fn test_security_data() {
    let mut log_data = LogData::with_enabled_tabs(true, false, false, false, false, false);

    let params = LogEntryParams {
        ip: "192.168.1.1".to_string(),
        url: "/admin/login".to_string(),
        log_line: "suspicious request".to_string(),
        timestamp: 1234567890,
        request_type: "POST".to_string(),
        request_domain: "example.com".to_string(),
        status_code: Some(200),
        response_size: Some(1024),
        response_time: Some(0.1f64.to_bits()),
        user_agent: Some("test-agent".to_string()),
    };

    log_data.add_entry(params);

    let (suspicious_count, attack_count, rate_limit_count) = log_data.get_security_summary();
    assert!(suspicious_count > 0 || attack_count > 0 || rate_limit_count > 0);
}

#[test]
fn test_error_data() {
    let mut log_data = LogData::with_enabled_tabs(false, false, true, false, false, false);

    let params = LogEntryParams {
        ip: "192.168.1.1".to_string(),
        url: "/error".to_string(),
        log_line: "error test".to_string(),
        timestamp: 1234567890,
        request_type: "GET".to_string(),
        request_domain: "example.com".to_string(),
        status_code: Some(404),
        response_size: Some(1024),
        response_time: Some(0.1f64.to_bits()),
        user_agent: Some("test-agent".to_string()),
    };

    log_data.add_entry(params);

    let (error_count, error_url_count, error_ip_count) = log_data.get_error_summary();
    assert!(error_count > 0 || error_url_count > 0 || error_ip_count > 0);
}

#[test]
fn test_bot_data() {
    let mut log_data = LogData::with_enabled_tabs(false, false, false, true, false, false);

    let params = LogEntryParams {
        ip: "192.168.1.1".to_string(),
        url: "/bot".to_string(),
        log_line: "bot test".to_string(),
        timestamp: 1234567890,
        request_type: "GET".to_string(),
        request_domain: "example.com".to_string(),
        status_code: Some(200),
        response_size: Some(1024),
        response_time: Some(0.1f64.to_bits()),
        user_agent: Some("bot-agent".to_string()),
    };

    log_data.add_entry(params);

    let (bot_count, bot_type_count, bot_ua_count) = log_data.get_bot_summary();
    assert!(bot_count > 0 || bot_type_count > 0 || bot_ua_count > 0);
}

fn bot_request(agent: &str) -> LogEntryParams {
    LogEntryParams {
        ip: "66.249.66.1".to_string(),
        url: "/".to_string(),
        log_line: "GET /".to_string(),
        timestamp: 1,
        request_type: "GET".to_string(),
        request_domain: "example.com".to_string(),
        status_code: Some(200),
        response_size: None,
        response_time: None,
        user_agent: Some(agent.to_string()),
    }
}

#[test]
fn bots_are_classified_by_their_type() {
    let mut log_data = LogData::with_enabled_tabs(false, false, false, true, false, false);
    log_data.add_entry(bot_request("Mozilla/5.0 (compatible; Googlebot/2.1)"));
    log_data.add_entry(bot_request("SomeCrawler/1.0"));
    assert_eq!(log_data.bots.bot_types.get("googlebot"), Some(&1));
    assert_eq!(log_data.bots.bot_types.get("crawler"), Some(&1));
    assert_eq!(log_data.bots.bot_types.get("bot"), None);
    assert_eq!(log_data.bots.bot_ips.get("66.249.66.1"), Some(&2));
}

#[test]
fn an_ip_lists_each_attack_signature_once() {
    let mut log_data = LogData::with_enabled_tabs(true, false, false, false, false, false);
    for _ in 0..2 {
        let mut p = bot_request("curl/8.0");
        p.ip = "10.0.0.9".to_string();
        p.url = "/admin".to_string();
        p.log_line = "GET /admin?q=union".to_string();
        log_data.add_entry(p);
    }
    let patterns = log_data.get_suspicious_patterns_for_ip("10.0.0.9");
    let mut sorted = patterns.clone();
    sorted.sort();
    sorted.dedup();
    assert_eq!(sorted.len(), patterns.len());
    assert!(patterns.iter().any(|s| s == "admin"));
    assert!(patterns.iter().any(|s| s == "union"));
    // "admin" stands twice in the signature list, so each request counts it twice.
    assert_eq!(log_data.security.attack_patterns.get("admin"), Some(&4));
}

#[test]
fn attack_signatures_are_found_in_capitals_too() {
    let mut log_data = LogData::with_enabled_tabs(true, false, false, false, false, false);
    let mut p = bot_request("curl/8.0");
    p.ip = "10.0.0.7".to_string();
    p.url = "/WP-ADMIN".to_string();
    p.log_line = "GET /WP-ADMIN".to_string();
    log_data.add_entry(p);
    assert_eq!(log_data.security.attack_patterns.get("wp-admin"), Some(&1));
    assert_eq!(log_data.security.suspicious_ips.get("10.0.0.7"), Some(&1));
}

#[test]
fn the_counter_ceiling_grows_by_what_a_request_can_add() {
    let mut log_data = LogData::with_enabled_tabs(true, false, false, false, false, false);
    assert_eq!(log_data.counter_ceiling, 0);
    log_data.add_entry(bot_request("curl/8.0"));
    assert_eq!(log_data.counter_ceiling, 2);
    let mut p = bot_request("curl/8.0");
    p.url = "/admin/backup".to_string();
    p.log_line = "GET /admin/backup?q=union select".to_string();
    log_data.add_entry(p);
    // "admin" (twice in the list), "backup", "union" and "select" match.
    assert_eq!(log_data.counter_ceiling, 7);
}
