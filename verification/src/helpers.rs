//! Reading one access-log line into the statistics: the regular expression picks
//! the fields, the date is parsed in one of three formats, and status, size and
//! user agent are read from the quoted layout of the line.
use vstd::prelude::*;
use crate::text::{
    chars_of, string_of, push_str, words, split_words, trim, trim_chars,
    parse_u16_spec, parse_u64_spec, parse_u16, parse_u64, slice_to_vec,
};
use crate::regex_match::{regex_compile, regex_captures, groups_view, compile, captures, CompiledPattern};
use crate::datetime::{offset_parse, parse_with_offset};
use crate::log_data::{LogData, LogEntryParams, added, max_step};
use std::time::SystemTime;
use crate::requests::texts;
use crate::file_reader::{TailPlan, tail_plan, last_lines_start};

verus! {

/// The response time recorded for every line: 0.1 s, as the bit pattern of an `f64`.
pub const DEFAULT_RESPONSE_TIME_BITS: u64 = 0x3FB9_9999_9999_999A;

/// The message for a pattern the regex crate refuses, given the crate's error text.
pub open spec fn invalid_pattern_message(p: Seq<char>, e: Seq<char>) -> Seq<char> {
    "Invalid regex pattern '"@ + p + "': "@ + e
}

/// The message for a pattern that cannot be compiled, given the crate's error text.
pub open spec fn compile_failure_message(p: Seq<char>, e: Seq<char>) -> Seq<char> {
    "Failed to compile regex pattern '"@ + p + "': "@ + e
}

/// Checks that `pattern` compiles.
pub fn validate_regex_pattern(pattern: &str) -> (r: Result<(), String>)
    ensures
        match regex_compile(pattern@) {
            Ok(_) => r is Ok,
            Err(e) => r matches Err(m) && m@ == invalid_pattern_message(pattern@, e),
        },
{
    match compile(pattern) {
        Ok(_) => Ok(()),
        Err(e) => {
            let mut m: Vec<char> = Vec::new();
            push_str(&mut m, "Invalid regex pattern '");
            push_str(&mut m, pattern);
            push_str(&mut m, "': ");
            push_str(&mut m, e.as_str());
            Err(string_of(m.as_slice()))
        },
    }
}

/// Compiles `pattern`, or gives the reason it cannot be compiled.
pub fn compile_pattern(pattern: &str) -> (r: Result<CompiledPattern, String>)
    ensures
        match regex_compile(pattern@) {
            Ok(_) => r matches Ok(c) && c@ == pattern@,
            Err(e) => r matches Err(m) && m@ == compile_failure_message(pattern@, e),
        },
{
    match compile(pattern) {
        Ok(c) => Ok(c),
        Err(e) => {
            let mut m: Vec<char> = Vec::new();
            push_str(&mut m, "Failed to compile regex pattern '");
            push_str(&mut m, pattern);
            push_str(&mut m, "': ");
            push_str(&mut m, e.as_str());
            Err(string_of(m.as_slice()))
        },
    }
}

/// The text of capture group `i`, or the empty text when the group is absent.
pub open spec fn group_text(g: Seq<Option<Seq<char>>>, i: int) -> Seq<char> {
    if 0 <= i < g.len() {
        match g[i] {
            Some(t) => t,
            None => Seq::empty(),
        }
    } else {
        Seq::empty()
    }
}

/// The first required field (IP, date, method, URL: groups 1, 2, 4, 5) that is empty.
pub open spec fn captures_error(g: Seq<Option<Seq<char>>>) -> Option<Seq<char>> {
    if group_text(g, 1).len() == 0 {
        Some("IP address is empty"@)
    } else if group_text(g, 2).len() == 0 {
        Some("Datetime is empty"@)
    } else if group_text(g, 4).len() == 0 {
        Some("Request type is empty"@)
    } else if group_text(g, 5).len() == 0 {
        Some("URL is empty"@)
    } else {
        None
    }
}

fn group_string(groups: &Vec<Option<String>>, i: usize) -> (r: String)
    ensures
        r@ == group_text(groups_view(groups@), i as int),
{
    if i < groups.len() {
        match &groups[i] {
            Some(t) => t.clone(),
            None => String::new(),
        }
    } else {
        String::new()
    }
}

/// The IP, date, domain, method and URL of a match (groups 1 to 5), each required
/// to be non-empty but the domain.
pub fn extract_captures_safe(groups: &Vec<Option<String>>) -> (r: Result<(String, String, String, String, String), String>)
    ensures
        match r {
            Ok((ip, dt, domain, method, url)) => {
                let g = groups_view(groups@);
                &&& captures_error(g) is None
                &&& ip@ == group_text(g, 1)
                &&& dt@ == group_text(g, 2)
                &&& domain@ == group_text(g, 3)
                &&& method@ == group_text(g, 4)
                &&& url@ == group_text(g, 5)
            },
            Err(e) => captures_error(groups_view(groups@)) == Some(e@),
        },
{
    let ip = group_string(groups, 1);
    let datetime_str = group_string(groups, 2);
    let request_domain = group_string(groups, 3);
    let request_type = group_string(groups, 4);
    let url = group_string(groups, 5);
    if ip.as_str().is_empty() {
        return Err(String::from_str("IP address is empty"));
    }
    if datetime_str.as_str().is_empty() {
        return Err(String::from_str("Datetime is empty"));
    }
    if request_type.as_str().is_empty() {
        return Err(String::from_str("Request type is empty"));
    }
    if url.as_str().is_empty() {
        return Err(String::from_str("URL is empty"));
    }
    Ok((ip, datetime_str, request_domain, request_type, url))
}

/// The two date formats tried after the caller's.
pub open spec fn common_log_format() -> Seq<char> {
    "%d/%b/%Y:%H:%M:%S %z"@
}

/// The second fallback date format.
pub open spec fn iso_offset_format() -> Seq<char> {
    "%Y-%m-%d %H:%M:%S %z"@
}

/// The timestamp of `s` read with `fmt`, then with the common log format, then with
/// the ISO format with offset; or the message listing the three errors.
pub open spec fn datetime_result(s: Seq<char>, fmt: Seq<char>) -> Result<i64, Seq<char>> {
    match offset_parse(s, fmt) {
        Ok(t) => Ok(t),
        Err(e1) => match offset_parse(s, common_log_format()) {
            Ok(t) => Ok(t),
            Err(e2) => match offset_parse(s, iso_offset_format()) {
                Ok(t) => Ok(t),
                Err(e3) => Err(
                    "Failed to parse datetime '"@ + s + "' with formats '"@ + fmt
                        + "', '%d/%b/%Y:%H:%M:%S %z', '%Y-%m-%d %H:%M:%S %z'. Errors: "@
                        + e1 + ", "@ + e2 + ", "@ + e3,
                ),
            },
        },
    }
}

/// Parses a date-time with its UTC offset into a Unix timestamp, trying `date_format`
/// and then two common formats.
pub fn parse_datetime_safe(datetime_str: &str, date_format: &str) -> (r: Result<i64, String>)
    ensures
        match r {
            Ok(t) => datetime_result(datetime_str@, date_format@) == Ok::<i64, Seq<char>>(t),
            Err(e) => datetime_result(datetime_str@, date_format@) == Err::<i64, Seq<char>>(e@),
        },
{
    match parse_with_offset(datetime_str, date_format) {
        Ok(t) => Ok(t),
        Err(e1) => match parse_with_offset(datetime_str, "%d/%b/%Y:%H:%M:%S %z") {
            Ok(t) => Ok(t),
            Err(e2) => match parse_with_offset(datetime_str, "%Y-%m-%d %H:%M:%S %z") {
                Ok(t) => Ok(t),
                Err(e3) => {
                    let mut m: Vec<char> = Vec::new();
                    push_str(&mut m, "Failed to parse datetime '");
                    push_str(&mut m, datetime_str);
                    push_str(&mut m, "' with formats '");
                    push_str(&mut m, date_format);
                    push_str(&mut m, "', '%d/%b/%Y:%H:%M:%S %z', '%Y-%m-%d %H:%M:%S %z'. Errors: ");
                    push_str(&mut m, e1.as_str());
                    push_str(&mut m, ", ");
                    push_str(&mut m, e2.as_str());
                    push_str(&mut m, ", ");
                    push_str(&mut m, e3.as_str());
                    Err(string_of(m.as_slice()))
                },
            },
        },
    }
}

/// The positions of the double quotes of `s`, in order.
pub open spec fn quote_positions(s: Seq<char>) -> Seq<int>
    decreases s.len(),
{
    if s.len() == 0 {
        Seq::empty()
    } else {
        let q = quote_positions(s.drop_last());
        if s.last() == '"' {
            q.push(s.len() - 1)
        } else {
            q
        }
    }
}

/// The status code and response size: the first two words after the second quote,
/// when the line has at least four quotes.
pub open spec fn status_and_size(s: Seq<char>) -> (Option<u16>, Option<u64>) {
    let q = quote_positions(s);
    if q.len() >= 4 {
        let parts = words(s.skip(q[1] + 1));
        if parts.len() >= 2 {
            (parse_u16_spec(parts[0]), parse_u64_spec(parts[1]))
        } else {
            (None, None)
        }
    } else {
        (None, None)
    }
}

/// The user agent: the trimmed text between the last two quotes, when the line has
/// at least six quotes and that text is neither blank nor "-".
pub open spec fn quoted_agent(s: Seq<char>) -> Option<Seq<char>> {
    let q = quote_positions(s);
    if q.len() >= 6 {
        let ua = s.subrange(q[q.len() - 2] + 1, q[q.len() - 1]);
        if trim(ua).len() > 0 && ua != "-"@ {
            Some(trim(ua))
        } else {
            None
        }
    } else {
        None
    }
}

/// A line in the access-log layout: it has a double quote and both square brackets.
pub open spec fn nginx_shaped(s: Seq<char>) -> bool {
    s.contains('"') && s.contains('[') && s.contains(']')
}

proof fn lemma_quote_positions(s: Seq<char>)
    ensures
        forall|k: int| 0 <= k < quote_positions(s).len() ==> 0 <= #[trigger] quote_positions(s)[k] < s.len()
            && s[quote_positions(s)[k]] == '"',
        forall|a: int, b: int| 0 <= a < b < quote_positions(s).len() ==> quote_positions(s)[a] < quote_positions(s)[b],
    decreases s.len(),
{
    if s.len() > 0 {
        let t = s.drop_last();
        lemma_quote_positions(t);
        let q = quote_positions(t);
        assert forall|k: int| 0 <= k < q.len() implies s[q[k]] == '"' by {
            assert(s[q[k]] == t[q[k]]);
        }
        if s.last() == '"' {
            let q2 = q.push(s.len() - 1);
            assert forall|k: int| 0 <= k < q2.len() implies 0 <= #[trigger] q2[k] < s.len() && s[q2[k]] == '"' by {
                if k < q.len() {
                    assert(q2[k] == q[k]);
                }
            }
            assert forall|a: int, b: int| 0 <= a < b < q2.len() implies q2[a] < q2[b] by {
                if b == q.len() {
                    assert(q2[a] == q[a]);
                }
            }
        }
    }
}

/// The quote positions of `line`.
fn quotes_of(line: &[char]) -> (r: Vec<usize>)
    ensures
        r@.map_values(|i: usize| i as int) == quote_positions(line@),
{
    let mut r: Vec<usize> = Vec::new();
    let mut i: usize = 0;
    while i < line.len()
        invariant
            i <= line@.len(),
            r@.map_values(|k: usize| k as int) == quote_positions(line@.take(i as int)),
        decreases line.len() - i,
    {
        let ghost prev = r@;
        assert(line@.take(i as int + 1).drop_last() =~= line@.take(i as int));
        assert(line@.take(i as int + 1).last() == line@[i as int]);
        if line[i] == '"' {
            r.push(i);
            assert(r@.map_values(|k: usize| k as int) =~= prev.map_values(|k: usize| k as int).push(i as int));
        }
        i += 1;
    }
    assert(line@.take(i as int) =~= line@);
    r
}

fn has_char(s: &[char], c: char) -> (r: bool)
    ensures
        r == s@.contains(c),
{
    let mut i: usize = 0;
    while i < s.len()
        invariant
            i <= s@.len(),
            forall|k: int| 0 <= k < i ==> s@[k] != c,
        decreases s.len() - i,
    {
        if s[i] == c {
            return true;
        }
        i += 1;
    }
    false
}

/// Status code, response size, response time and user agent read from the quoted
/// layout of an access-log line; the response time is always 0.1 s.
pub fn extract_additional_data_safe(line: &str) -> (r: (Option<u16>, Option<u64>, Option<u64>, Option<String>))
    ensures
        r.2 == Some(DEFAULT_RESPONSE_TIME_BITS),
        !nginx_shaped(line@) ==> r.0 is None && r.1 is None && r.3 is None,
        nginx_shaped(line@) ==> (r.0, r.1) == status_and_size(line@),
        nginx_shaped(line@) ==> match r.3 {
            Some(ua) => quoted_agent(line@) == Some(ua@),
            None => quoted_agent(line@) is None,
        },
{
    let s = chars_of(line);
    if !has_char(s.as_slice(), '"') || !has_char(s.as_slice(), '[') || !has_char(s.as_slice(), ']') {
        return (None, None, Some(DEFAULT_RESPONSE_TIME_BITS), None);
    }
    let q = quotes_of(s.as_slice());
    let ghost qv = quote_positions(s@);
    proof {
        lemma_quote_positions(s@);
        assert(qv.len() == q@.len());
    }
    let mut status_code: Option<u16> = None;
    let mut response_size: Option<u64> = None;
    let mut user_agent: Option<String> = None;
    if q.len() >= 4 {
        assert(q@[1] as int == qv[1]);
        let rest = slice_to_vec(s.as_slice(), q[1] + 1, s.len());
        assert(rest@ =~= s@.skip(qv[1] + 1));
        let parts = split_words(rest.as_slice());
        if parts.len() >= 2 {
            let ghost pv = parts@.map_values(|w: Vec<char>| w@);
            assert(pv[0] == parts@[0]@ && pv[1] == parts@[1]@);
            status_code = parse_u16(parts[0].as_slice());
            response_size = parse_u64(parts[1].as_slice());
        }
    }
    if q.len() >= 6 {
        let n = q.len();
        let start = q[n - 2] + 1;
        let end = q[n - 1];
        assert(start as int == qv[qv.len() - 2] + 1 && end as int == qv[qv.len() - 1]);
        let ua = slice_to_vec(s.as_slice(), start, end);
        let trimmed = trim_chars(ua.as_slice());
        let dash = chars_of("-");
        let is_dash = ua.len() == 1 && ua[0] == '-';
        proof {
            reveal_strlit("-");
            if is_dash {
                assert(ua@ =~= "-"@);
            } else {
                assert(ua@ != "-"@);
            }
        }
        if trimmed.len() > 0 && !is_dash {
            user_agent = Some(string_of(trimmed.as_slice()));
        }
    }
    (status_code, response_size, Some(DEFAULT_RESPONSE_TIME_BITS), user_agent)
}

/// `p` is the request read from `line`, whose capture groups are `g` and whose date
/// gave the timestamp `ts`.
pub open spec fn line_entry(p: LogEntryParams, line: Seq<char>, g: Seq<Option<Seq<char>>>, ts: i64) -> bool {
    &&& p.ip@ == group_text(g, 1)
    &&& p.url@ == group_text(g, 5)
    &&& p.log_line@ == line
    &&& p.timestamp == ts
    &&& p.request_type@ == group_text(g, 4)
    &&& p.request_domain@ == group_text(g, 3)
    &&& (p.status_code, p.response_size) == (if nginx_shaped(line) { status_and_size(line) } else { (None, None) })
    &&& p.response_time == Some(DEFAULT_RESPONSE_TIME_BITS)
    &&& match p.user_agent {
        Some(ua) => nginx_shaped(line) && quoted_agent(line) == Some(ua@),
        None => !nginx_shaped(line) || quoted_agent(line) is None,
    }
}

/// Reads `line` with `regex_pattern` and records the request it describes in
/// `log_data`. A pattern that does not compile is an error; a line that does not
/// match, lacks a required field or has an unreadable date is skipped.
pub fn process_line(line: &str, regex_pattern: &str, date_format: &str, log_data: &mut LogData) -> (r: Result<(), String>)
    requires
        old(log_data).wf(),
        old(log_data).has_room(),
    ensures
        final(log_data).wf(),
        final(log_data).counter_ceiling <= old(log_data).counter_ceiling + max_step(),
        match regex_compile(regex_pattern@) {
            Err(e) => r matches Err(m) && m@ == compile_failure_message(regex_pattern@, e)
                && *final(log_data) == *old(log_data),
            Ok(_) => r is Ok && match regex_captures(regex_pattern@, line@) {
                None => *final(log_data) == *old(log_data),
                Some(g) => if captures_error(g) is Some {
                    *final(log_data) == *old(log_data)
                } else {
                    match datetime_result(group_text(g, 2), date_format@) {
                        Err(_) => *final(log_data) == *old(log_data),
                        Ok(ts) => exists|p: LogEntryParams, now: SystemTime, current: SystemTime|
                            line_entry(p, line@, g, ts) && added(*old(log_data), *final(log_data), p, now, current),
                    }
                },
            },
        },
{
    let re = match compile_pattern(regex_pattern) {
        Ok(re) => re,
        Err(e) => {
            return Err(e);
        },
    };
    let groups = match captures(&re, line) {
        Some(g) => g,
        None => {
            return Ok(());
        },
    };
    let (ip, datetime_str, request_domain, request_type, url) = match extract_captures_safe(&groups) {
        Ok(d) => d,
        Err(_) => {
            return Ok(());
        },
    };
    if ip.as_str().is_empty() {
        return Ok(());
    }
    let timestamp = match parse_datetime_safe(datetime_str.as_str(), date_format) {
        Ok(t) => t,
        Err(_) => {
            return Ok(());
        },
    };
    let (status_code, response_size, response_time, user_agent) = extract_additional_data_safe(line);
    let params = LogEntryParams {
        ip,
        url,
        log_line: String::from_str(line),
        timestamp,
        request_type,
        request_domain,
        status_code,
        response_size,
        response_time,
        user_agent,
    };
    let ghost pg = params;
    assert(line_entry(pg, line@, groups_view(groups@), timestamp));
    log_data.add_entry(params);
    Ok(())
}

/// What reading `line` does to the statistics `o`, giving `n`, when the pattern
/// compiles (as `process_line` does it).
pub open spec fn line_read(o: LogData, n: LogData, line: Seq<char>, pattern: Seq<char>, fmt: Seq<char>) -> bool {
    match regex_captures(pattern, line) {
        None => n == o,
        Some(g) => if captures_error(g) is Some {
            n == o
        } else {
            match datetime_result(group_text(g, 2), fmt) {
                Err(_) => n == o,
                Ok(ts) => exists|p: LogEntryParams, now: SystemTime, current: SystemTime|
                    line_entry(p, line, g, ts) && added(o, n, p, now, current),
            }
        },
    }
}

/// The statistics `states` follow one another by reading `lines` in turn.
pub open spec fn lines_read(states: Seq<LogData>, lines: Seq<Seq<char>>, pattern: Seq<char>, fmt: Seq<char>) -> bool {
    &&& states.len() == lines.len() + 1
    &&& forall|i: int| 0 <= i < lines.len() ==> line_read(#[trigger] states[i], states[i + 1], lines[i], pattern, fmt)
}

/// The lines of a file of `len` lines that following it reads at first: those after
/// the ones already read, else the last `count` ones for a positive `count`, all for
/// `-1`, and none otherwise.
pub open spec fn tail_range(count: isize, last: Option<usize>, len: nat) -> (nat, nat) {
    match last {
        Some(n) => (if n < len { n as nat } else { len }, len),
        None => if count > 0 {
            (if len > count { (len - count) as nat } else { 0 }, len)
        } else if count == -1 {
            (0, len)
        } else {
            (len, len)
        },
    }
}

/// The number of lines counted as read afterwards: the end of the file once a line
/// was read or the reader moved to the end, else what it was.
pub open spec fn tail_position(count: isize, last: Option<usize>, len: nat) -> Option<usize> {
    match last {
        Some(n) => if n < len { Some(len as usize) } else { Some(n) },
        None => if (count > 0 || count == -1) && len == 0 {
            None
        } else {
            Some(len as usize)
        },
    }
}

/// Following a file again from the position a read returns reads exactly the lines
/// added since: a read covers the lines up to the end of the file it saw, and the
/// next read, on a file that has only grown, starts there.
pub proof fn law_following_reads_each_line_once(count: isize, last: Option<usize>, len1: nat, len2: nat)
    requires
        len1 <= len2 <= usize::MAX,
        last matches Some(n) ==> n <= len1,
    ensures
        tail_range(count, last, len1).1 == len1,
        tail_range(count, last, len1).0 <= len1,
        tail_position(count, last, len1) matches Some(q) ==> q == len1
            && tail_range(count, Some(q), len2) == (len1, len2),
{
}

/// Reads the lines of a followed file into `log_data`: where to start comes from the
/// lines already read and the count asked for (see `tail_range`); each line is read
/// as `process_line` reads it. The number of lines then counted as read is returned;
/// a pattern that does not compile is an error and reads nothing.
#[verifier::spinoff_prover]
#[verifier::rlimit(60)]
pub fn tail_lines(lines: &Vec<String>, count: isize, regex_pattern: &str, date_format: &str,
    log_data: &mut LogData, last_processed_line: Option<usize>) -> (r: Result<Option<usize>, String>)
    requires
        old(log_data).wf(),
        old(log_data).counter_ceiling + max_step() * lines@.len() <= usize::MAX,
    ensures
        final(log_data).wf(),
        match regex_compile(regex_pattern@) {
            Err(e) => r matches Err(m) && m@ == invalid_pattern_message(regex_pattern@, e)
                && *final(log_data) == *old(log_data),
            Ok(_) => {
                let (from, to) = tail_range(count, last_processed_line, lines@.len());
                &&& r == Ok::<Option<usize>, String>(tail_position(count, last_processed_line, lines@.len()))
                &&& exists|states: Seq<LogData>| lines_read(states, texts(lines@).subrange(from as int, to as int), regex_pattern@, date_format@)
                    && states[0] == *old(log_data) && states.last() == *final(log_data)
            },
        },
{
    match validate_regex_pattern(regex_pattern) {
        Ok(_) => {},
        Err(e) => {
            return Err(e);
        },
    }
    let len = lines.len();
    let from: usize = match tail_plan(count, last_processed_line) {
        TailPlan::ResumeAfter(n) => if n < len { n } else { len },
        TailPlan::LastLines(c) => last_lines_start(len, c),
        TailPlan::AllLines => 0,
        TailPlan::AtEnd => len,
    };
    let ghost pat = regex_pattern@;
    let ghost fmt = date_format@;
    let ghost all = texts(lines@);
    let ghost mut states: Seq<LogData> = seq![*log_data];
    let mut i = from;
    while i < len
        invariant
            len == lines@.len(),
            from <= i <= len,
            all == texts(lines@),
            regex_compile(pat) is Ok,
            pat == regex_pattern@,
            fmt == date_format@,
            log_data.wf(),
            log_data.counter_ceiling <= old(log_data).counter_ceiling + max_step() * (i - from),
            old(log_data).counter_ceiling + max_step() * lines@.len() <= usize::MAX,
            lines_read(states, all.subrange(from as int, i as int), pat, fmt),
            states[0] == *old(log_data),
            states.last() == *log_data,
        decreases len - i,
    {
        let ghost before = *log_data;
        assert(max_step() * (i - from) + max_step() <= max_step() * lines@.len()) by (nonlinear_arith)
            requires i - from + 1 <= lines@.len(), max_step() == 135;
        let res = process_line(lines[i].as_str(), regex_pattern, date_format, log_data);
        assert(max_step() * (i - from) + max_step() == max_step() * (i + 1 - from)) by (nonlinear_arith)
            requires max_step() == 135;
        proof {
            assert(all[i as int] == lines@[i as int]@);
            assert(line_read(before, *log_data, all[i as int], pat, fmt));
            if *log_data != before {
                let g = regex_captures(pat, all[i as int])->0;
                let ts = datetime_result(group_text(g, 2), fmt)->Ok_0;
                let (p, now, current) = choose|p: LogEntryParams, now: SystemTime, current: SystemTime|
                    line_entry(p, all[i as int], g, ts) && added(before, *log_data, p, now, current);
                assert(log_data.total_requests == before.total_requests + 1);
            }
            let prev = states;
            states = states.push(*log_data);
            let done = all.subrange(from as int, i as int + 1);
            assert forall|k: int| 0 <= k < done.len() implies line_read(#[trigger] states[k], states[k + 1], done[k], pat, fmt) by {
                if k < done.len() - 1 {
                    assert(states[k] == prev[k] && states[k + 1] == prev[k + 1]);
                    assert(done[k] == all.subrange(from as int, i as int)[k]);
                } else {
                    assert(states[k] == before);
                    assert(done[k] == all[i as int]);
                }
            }
        }
        i += 1;
    }
    let pos = match last_processed_line {
        Some(n) => if n < len { Some(len) } else { Some(n) },
        None => if (count > 0 || count == -1) && len == 0 { None } else { Some(len) },
    };
    Ok(pos)
}

} // verus!
