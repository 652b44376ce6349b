use logutil::text::{
    chars_of, contains, parse_bool, parse_isize, parse_u16, parse_u64, parse_usize, split_words, trim_chars,
    u64_to_string, isize_to_string, find_hits, char_is_whitespace,
};
use logutil::file_selector::format_size;
use logutil::progress_bar::{format_duration, format_secs};

fn cs(s: &str) -> Vec<char> {
    s.chars().collect()
}

fn text(v: &[char]) -> String {
    v.iter().collect()
}

#[test]
fn parses_unsigned_like_from_str() {
    assert_eq!(parse_u16(&cs("404")), Some(404));
    assert_eq!(parse_u16(&cs("+7")), Some(7));
    assert_eq!(parse_u16(&cs("65535")), Some(65535));
    assert_eq!(parse_u16(&cs("65536")), None);
    assert_eq!(parse_u16(&cs("")), None);
    assert_eq!(parse_u16(&cs("-1")), None);
    assert_eq!(parse_u16(&cs("12a")), None);
    assert_eq!(parse_u64(&cs("18446744073709551615")), Some(u64::MAX));
    assert_eq!(parse_u64(&cs("18446744073709551616")), None);
    assert_eq!(parse_usize(&cs("10")), Some(10));
}

#[test]
fn parses_signed_like_from_str() {
    for s in ["-1", "0", "+5", "-0", "42", "-9223372036854775808", "9223372036854775807"] {
        assert_eq!(parse_isize(&cs(s)), s.parse::<isize>().ok(), "{}", s);
    }
    for s in ["-", "+", "-+1", "+-1", "", "1-", "9223372036854775808", "-9223372036854775809"] {
        assert_eq!(parse_isize(&cs(s)), None, "{}", s);
    }
}

#[test]
fn parses_booleans_like_from_str() {
    assert_eq!(parse_bool(&cs("true")), Some(true));
    assert_eq!(parse_bool(&cs("false")), Some(false));
    assert_eq!(parse_bool(&cs("True")), None);
    assert_eq!(parse_bool(&cs("")), None);
}

#[test]
fn integers_print_like_to_string() {
    for n in [0u64, 7, 10, 1234567890, u64::MAX] {
        assert_eq!(u64_to_string(n), n.to_string());
    }
    for n in [0isize, -1, 42, isize::MIN, isize::MAX] {
        assert_eq!(isize_to_string(n), n.to_string());
    }
}

#[test]
fn printed_numbers_read_back() {
    for n in [0isize, -1, 42, isize::MIN, isize::MAX] {
        assert_eq!(parse_isize(&cs(&isize_to_string(n))), Some(n));
    }
}

#[test]
fn words_and_trimming_follow_str() {
    let s = "  GET   /index.html\tHTTP/1.1 ";
    let words: Vec<String> = split_words(&cs(s)).iter().map(|w| text(w)).collect();
    let expected: Vec<String> = s.split_whitespace().map(|w| w.to_string()).collect();
    assert_eq!(words, expected);
    assert_eq!(text(&trim_chars(&cs("  Mozilla/5.0 \t"))), "Mozilla/5.0");
    assert_eq!(text(&trim_chars(&cs("   "))), "");
}

#[test]
fn substring_search() {
    assert!(contains(&cs("GET /wp-admin/"), &cs("admin")));
    assert!(!contains(&cs("GET /index"), &cs("admin")));
    assert!(contains(&cs("abc"), &cs("")));
    assert_eq!(chars_of("héllo"), vec!['h', 'é', 'l', 'l', 'o']);
}

#[test]
fn hits_keep_pattern_order() {
    let pats = vec!["admin", "script", "zzz", "eval("];
    let found = find_hits(&cs("<script>eval(1)</script> /admin"), &pats);
    assert_eq!(found, vec!["admin", "script", "eval("]);
}

#[test]
fn sizes_print_like_float_formatting() {
    let kb = 1024u64;
    let mb = kb * 1024;
    let gb = mb * 1024;
    let mut samples = vec![0u64, 1, 1023, 1024, 1280, 1331, 1536, 2047, 5000, 1048575, 1048576, 1572864, 123456789,
        1073741823, 1073741824, 5368709120, 1234567890123, 9007199254740993, 18014398509481985, u64::MAX];
    for k in 0..200u64 {
        samples.push(kb + k * 37);
        samples.push(mb + k * 52429);
        samples.push(gb + k * 53687091);
    }
    for b in samples {
        let expected = if b < kb {
            format!("{} B", b)
        } else if b < mb {
            format!("{:.1} KB", b as f64 / kb as f64)
        } else if b < gb {
            format!("{:.1} MB", b as f64 / mb as f64)
        } else {
            format!("{:.1} GB", b as f64 / gb as f64)
        };
        assert_eq!(format_size(b), expected, "{}", b);
    }
}

#[test]
fn durations_leave_out_zero_leading_units() {
    assert_eq!(format_secs(0), "0s");
    assert_eq!(format_secs(59), "59s");
    assert_eq!(format_secs(61), "1m 1s");
    assert_eq!(format_secs(3600), "1h 0m 0s");
    assert_eq!(format_secs(3723), "1h 2m 3s");
    assert_eq!(format_duration(std::time::Duration::from_millis(125_900)), "2m 5s");
}

#[test]
fn white_space_is_what_std_calls_white_space() {
    for n in 0u32..=0x10FFFF {
        if let Some(c) = char::from_u32(n) {
            assert_eq!(char_is_whitespace(c), c.is_whitespace(), "U+{:04X}", n);
        }
    }
}
