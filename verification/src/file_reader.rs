//! Reading log files: the parser that turns one line into a request, given the
//! line format (a regular expression) and the date format of the file.
use vstd::prelude::*;
use std::path::PathBuf;
use crate::text::{
    chars_of, string_of, push_str, words, split_words, starts_with, occurs_at, find_char,
    slice_to_vec, parse_u16_spec, parse_u64_spec, parse_u16, parse_u64,
};
use crate::regex_match::{regex_compile, regex_captures, groups_view, compile, captures, CompiledPattern};
use crate::datetime::{naive_parse, parse_naive_utc};
use crate::memory_db::LogRecord;
use crate::clock::system_now;

verus! {

/// File-system paths, carried through the library without being inspected.
#[verifier::external_type_specification]
#[verifier::external_body]
pub struct ExPathBuf(std::path::PathBuf);

/// One request read from a log line. The response time is the text of its capture
/// group, in seconds, for the caller to read as a number.
#[derive(Debug)]
pub struct LogEntryParams {
    pub ip: String,
    pub url: String,
    pub log_line: String,
    pub timestamp: i64,
    pub request_type: String,
    pub request_domain: String,
    pub status_code: Option<u16>,
    pub response_size: Option<u64>,
    pub response_time: Option<String>,
    pub user_agent: Option<String>,
}

/// The part of `s` before its first '/', if it has one.
pub open spec fn before_slash(s: Seq<char>) -> Option<Seq<char>>
    decreases s.len(),
{
    if s.len() == 0 {
        None
    } else if s[0] == '/' {
        Some(Seq::empty())
    } else {
        match before_slash(s.drop_first()) {
            Some(t) => Some(seq![s[0]] + t),
            None => None,
        }
    }
}

proof fn lemma_before_slash(s: Seq<char>, i: int)
    requires
        0 <= i <= s.len(),
        i < s.len() ==> s[i] == '/',
        forall|j: int| 0 <= j < i ==> s[j] != '/',
    ensures
        before_slash(s) == (if i < s.len() { Some(s.take(i)) } else { None::<Seq<char>> }),
    decreases s.len(),
{
    if s.len() > 0 && i > 0 {
        lemma_before_slash(s.drop_first(), i - 1);
        if i < s.len() {
            assert(seq![s[0]] + s.drop_first().take(i - 1) =~= s.take(i));
        }
    }
}

/// The domain of a request target: for an absolute `http://` or `https://` URL, the
/// host part up to the first '/'; for any other target, the part before its first
/// '/', or "unknown" when it has none.
pub open spec fn domain_of(url: Seq<char>) -> Seq<char> {
    if occurs_at(url, "http://"@, 0) || occurs_at(url, "https://"@, 0) {
        let after = if occurs_at(url, "http://"@, 0) { url.skip(7) } else { url.skip(8) };
        match before_slash(after) {
            Some(d) => d,
            None => after,
        }
    } else {
        match before_slash(url) {
            Some(d) => d,
            None => "unknown"@,
        }
    }
}

/// Method, target and domain of a request line, or why it cannot be read.
pub open spec fn request_parts(req: Seq<char>) -> Result<(Seq<char>, Seq<char>, Seq<char>), Seq<char>> {
    let parts = words(req);
    if parts.len() < 2 {
        Err("Invalid request line format"@)
    } else {
        Ok((parts[0], parts[1], domain_of(parts[1])))
    }
}

/// Capture group `i`, when the match has it and it took part.
pub open spec fn group_at(g: Seq<Option<Seq<char>>>, i: int) -> Option<Seq<char>> {
    if 0 <= i < g.len() {
        g[i]
    } else {
        None
    }
}

/// The request line rebuilt from the method and target groups.
pub open spec fn request_line_of(g: Seq<Option<Seq<char>>>) -> Seq<char> {
    group_at(g, 4)->0 + " "@ + group_at(g, 5)->0
}

/// Why a match with groups `g` gives no request, if it does not: a missing group
/// (IP 1, timestamp 2, method 4, target 5), an unreadable timestamp, or a bad
/// request line, checked in that order.
pub open spec fn line_error(g: Seq<Option<Seq<char>>>, fmt: Seq<char>) -> Option<Seq<char>> {
    if group_at(g, 1) is None {
        Some("IP group not found"@)
    } else if group_at(g, 2) is None {
        Some("Timestamp group not found"@)
    } else if group_at(g, 4) is None {
        Some("HTTP method group not found"@)
    } else if group_at(g, 5) is None {
        Some("URL path group not found"@)
    } else if naive_parse(group_at(g, 2)->0, fmt) is Err {
        Some("Failed to parse timestamp: "@ + naive_parse(group_at(g, 2)->0, fmt)->Err_0)
    } else if request_parts(request_line_of(g)) is Err {
        Some(request_parts(request_line_of(g))->Err_0)
    } else {
        None
    }
}

/// `p` is the request read from `line`, whose groups are `g` (when `line_error` is none).
pub open spec fn params_of(p: LogEntryParams, line: Seq<char>, g: Seq<Option<Seq<char>>>, fmt: Seq<char>) -> bool {
    let parts = request_parts(request_line_of(g))->Ok_0;
    &&& p.ip@ == group_at(g, 1)->0
    &&& p.url@ == parts.1
    &&& p.log_line@ == line
    &&& p.timestamp == naive_parse(group_at(g, 2)->0, fmt)->Ok_0
    &&& p.request_type@ == parts.0
    &&& p.request_domain@ == parts.2
    &&& p.status_code == (match group_at(g, 6) { Some(t) => parse_u16_spec(t), None => None })
    &&& p.response_size == (match group_at(g, 7) { Some(t) => parse_u64_spec(t), None => None })
    &&& (match p.response_time { Some(t) => group_at(g, 8) == Some(t@), None => group_at(g, 8) is None })
    &&& (match p.user_agent { Some(t) => group_at(g, 9) == Some(t@), None => group_at(g, 9) is None })
}

/// Where a reader starts in its file, by the number of lines asked for: `-1` reads
/// every line, `0` starts at the end (reading nothing now), a positive `n` reads the
/// last `n` lines; any other number does nothing.
#[derive(Clone, Copy, Debug, PartialEq, Eq, Structural)]
pub enum StartPlan {
    AllLines,
    AtEnd,
    LastLines(usize),
    Nothing,
}

/// The start of a reader asked for `count` lines.
pub fn start_plan(count: isize) -> (r: StartPlan)
    ensures
        count == -1 ==> r == StartPlan::AllLines,
        count == 0 ==> r == StartPlan::AtEnd,
        count > 0 ==> r == StartPlan::LastLines(count as usize),
        count < -1 ==> r == StartPlan::Nothing,
{
    if count == -1 {
        StartPlan::AllLines
    } else if count == 0 {
        StartPlan::AtEnd
    } else if count > 0 {
        StartPlan::LastLines(count as usize)
    } else {
        StartPlan::Nothing
    }
}

/// Where following a file starts: after the lines already read when there are
/// some, else the last `count` lines for a positive `count`, every line for `-1`,
/// and the end of the file otherwise.
#[derive(Clone, Copy, Debug, PartialEq, Eq, Structural)]
pub enum TailPlan {
    ResumeAfter(usize),
    LastLines(usize),
    AllLines,
    AtEnd,
}

/// The start of following a file, given the lines already read and the count asked for.
pub fn tail_plan(count: isize, last_processed: Option<usize>) -> (r: TailPlan)
    ensures
        r == (match last_processed {
            Some(n) => TailPlan::ResumeAfter(n),
            None => if count > 0 {
                TailPlan::LastLines(count as usize)
            } else if count == -1 {
                TailPlan::AllLines
            } else {
                TailPlan::AtEnd
            },
        }),
{
    match last_processed {
        Some(n) => TailPlan::ResumeAfter(n),
        None => if count > 0 {
            TailPlan::LastLines(count as usize)
        } else if count == -1 {
            TailPlan::AllLines
        } else {
            TailPlan::AtEnd
        },
    }
}

/// The index of the first of the last `n` of `total` lines.
pub fn last_lines_start(total: usize, n: usize) -> (r: usize)
    ensures
        r == (if total > n { total - n } else { 0 }),
{
    if total > n { total - n } else { 0 }
}


/// Reads log lines of one file: the line pattern, the date format, and how far the
/// file has been read.
pub struct FileReader {
    file_path: PathBuf,
    regex_pattern: String,
    date_format: String,
    last_processed_line: usize,
}

impl FileReader {
    /// The line pattern.
    pub closed spec fn pattern(&self) -> Seq<char> {
        self.regex_pattern@
    }

    /// The date format.
    pub closed spec fn format(&self) -> Seq<char> {
        self.date_format@
    }

    /// The number of lines already read.
    pub closed spec fn lines_read(&self) -> usize {
        self.last_processed_line
    }

    /// The file read.
    pub closed spec fn path(&self) -> PathBuf {
        self.file_path
    }

    /// A reader of `file_path` that has read nothing yet.
    pub fn new(file_path: PathBuf, regex_pattern: String, date_format: String) -> (r: Self)
        ensures
            r.path() == file_path,
            r.pattern() == regex_pattern@,
            r.format() == date_format@,
            r.lines_read() == 0,
    {
        FileReader { file_path, regex_pattern, date_format, last_processed_line: 0 }
    }

    /// Records that the first `line` lines have been read.
    pub fn set_last_processed_line(&mut self, line: usize)
        ensures
            final(self).lines_read() == line,
            final(self).path() == old(self).path(),
            final(self).pattern() == old(self).pattern(),
            final(self).format() == old(self).format(),
    {
        self.last_processed_line = line;
    }

    /// The file now has `current_count` lines: when that is more than were read, the
    /// range of the new lines, now counted as read; otherwise nothing.
    pub fn take_new_lines(&mut self, current_count: usize) -> (r: Option<(usize, usize)>)
        ensures
            old(self).lines_read() < current_count ==> r == Some((old(self).lines_read(), current_count))
                && final(self).lines_read() == current_count,
            old(self).lines_read() >= current_count ==> r is None && final(self).lines_read() == old(self).lines_read(),
            final(self).path() == old(self).path(),
            final(self).pattern() == old(self).pattern(),
            final(self).format() == old(self).format(),
    {
        if current_count > self.last_processed_line {
            let from = self.last_processed_line;
            self.last_processed_line = current_count;
            Some((from, current_count))
        } else {
            None
        }
    }

    /// The file read.
    pub fn file_path(&self) -> (r: &PathBuf)
        ensures
            *r == self.path(),
    {
        &self.file_path
    }

    /// The number of lines already read.
    pub fn last_processed_line(&self) -> (r: usize)
        ensures
            r == self.lines_read(),
    {
        self.last_processed_line
    }

    /// Method, target and domain of a request line such as "GET /index.html".
    pub fn parse_request_line(&self, request_line: &str) -> (r: Result<(String, String, String), String>)
        ensures
            match r {
                Ok((m, u, d)) => request_parts(request_line@) == Ok::<(Seq<char>, Seq<char>, Seq<char>), Seq<char>>((m@, u@, d@)),
                Err(e) => request_parts(request_line@) == Err::<(Seq<char>, Seq<char>, Seq<char>), Seq<char>>(e@),
            },
    {
        let cs = chars_of(request_line);
        let parts = split_words(cs.as_slice());
        let ghost pv = parts@.map_values(|w: Vec<char>| w@);
        if parts.len() < 2 {
            return Err(String::from_str("Invalid request line format"));
        }
        assert(pv[0] == parts@[0]@ && pv[1] == parts@[1]@);
        let method = string_of(parts[0].as_slice());
        let url = parts[1].as_slice();
        let http = chars_of("http://");
        let https = chars_of("https://");
        let domain: Vec<char> = if starts_with(url, http.as_slice()) || starts_with(url, https.as_slice()) {
            let skip: usize = if starts_with(url, http.as_slice()) { 7 } else { 8 };
            proof {
                reveal_strlit("http://");
                reveal_strlit("https://");
            }
            let after = slice_to_vec(url, skip, url.len());
            assert(after@ =~= url@.skip(skip as int));
            match find_char(after.as_slice(), '/') {
                Some(i) => {
                    proof { lemma_before_slash(after@, i as int); }
                    slice_to_vec(after.as_slice(), 0, i)
                },
                None => {
                    proof { lemma_before_slash(after@, after@.len() as int); }
                    after
                },
            }
        } else {
            match find_char(url, '/') {
                Some(i) => {
                    proof { lemma_before_slash(url@, i as int); }
                    slice_to_vec(url, 0, i)
                },
                None => {
                    proof { lemma_before_slash(url@, url@.len() as int); }
                    chars_of("unknown")
                },
            }
        };
        Ok((method, string_of(url), string_of(domain.as_slice())))
    }

    /// The Unix timestamp of `timestamp_str` read with the date format, as a UTC time.
    pub fn parse_timestamp(&self, timestamp_str: &str) -> (r: Result<i64, String>)
        ensures
            match naive_parse(timestamp_str@, self.format()) {
                Ok(t) => r == Ok::<i64, String>(t),
                Err(e) => r matches Err(m) && m@ == "Failed to parse timestamp: "@ + e,
            },
    {
        match parse_naive_utc(timestamp_str, self.date_format.as_str()) {
            Ok(t) => Ok(t),
            Err(e) => {
                let mut m: Vec<char> = Vec::new();
                push_str(&mut m, "Failed to parse timestamp: ");
                push_str(&mut m, e.as_str());
                Err(string_of(m.as_slice()))
            },
        }
    }

    /// The request described by capture groups `groups` of `line`.
    pub fn params_from_groups(&self, line: &str, groups: &Vec<Option<String>>) -> (r: Result<LogEntryParams, String>)
        ensures
            match r {
                Ok(p) => line_error(groups_view(groups@), self.format()) is None
                    && params_of(p, line@, groups_view(groups@), self.format()),
                Err(e) => line_error(groups_view(groups@), self.format()) == Some(e@),
            },
    {
        let ghost g = groups_view(groups@);
        let ip = match group_opt(groups, 1) {
            Some(t) => t,
            None => {
                return Err(String::from_str("IP group not found"));
            },
        };
        let timestamp_str = match group_opt(groups, 2) {
            Some(t) => t,
            None => {
                return Err(String::from_str("Timestamp group not found"));
            },
        };
        let http_method = match group_opt(groups, 4) {
            Some(t) => t,
            None => {
                return Err(String::from_str("HTTP method group not found"));
            },
        };
        let url_path = match group_opt(groups, 5) {
            Some(t) => t,
            None => {
                return Err(String::from_str("URL path group not found"));
            },
        };
        let mut request_line: Vec<char> = Vec::new();
        push_str(&mut request_line, http_method.as_str());
        push_str(&mut request_line, " ");
        push_str(&mut request_line, url_path.as_str());
        let request_line = string_of(request_line.as_slice());
        let status_code = match group_opt(groups, 6) {
            Some(t) => parse_u16(chars_of(t.as_str()).as_slice()),
            None => None,
        };
        let response_size = match group_opt(groups, 7) {
            Some(t) => parse_u64(chars_of(t.as_str()).as_slice()),
            None => None,
        };
        let response_time = group_opt(groups, 8);
        let user_agent = group_opt(groups, 9);
        let timestamp = match self.parse_timestamp(timestamp_str.as_str()) {
            Ok(t) => t,
            Err(e) => {
                return Err(e);
            },
        };
        let (request_type, url, domain) = match self.parse_request_line(request_line.as_str()) {
            Ok(parts) => parts,
            Err(e) => {
                return Err(e);
            },
        };
        Ok(LogEntryParams {
            ip,
            url,
            log_line: String::from_str(line),
            timestamp,
            request_type,
            request_domain: domain,
            status_code,
            response_size,
            response_time,
            user_agent,
        })
    }

    /// Reads `line` with the compiled line pattern: no request when the line does not
    /// match; otherwise the request its groups describe, or why they describe none.
    pub fn parse_line(&self, line: &str, re: &CompiledPattern) -> (r: Result<Option<LogEntryParams>, String>)
        ensures
            match regex_captures(re@, line@) {
                None => r matches Ok(None),
                Some(g) => match r {
                    Ok(Some(p)) => line_error(g, self.format()) is None && params_of(p, line@, g, self.format()),
                    Ok(None) => false,
                    Err(e) => line_error(g, self.format()) == Some(e@),
                },
            },
    {
        match captures(re, line) {
            None => Ok(None),
            Some(groups) => match self.params_from_groups(line, &groups) {
                Ok(p) => Ok(Some(p)),
                Err(e) => Err(e),
            },
        }
    }

    /// The stored form of `line`, if the reader's pattern compiles and the line
    /// gives a request: the record (id 0, created now, response time left unset)
    /// and, beside it, the text of the response time for the caller to read.
    pub fn process_line_to_record(&self, line: &str) -> (r: Option<(LogRecord, Option<String>)>)
        ensures
            match regex_compile(self.pattern()) {
                Err(_) => r is None,
                Ok(_) => match regex_captures(self.pattern(), line@) {
                    None => r is None,
                    Some(g) => if line_error(g, self.format()) is Some {
                        r is None
                    } else {
                        r matches Some((rec, rt)) && record_of(rec, rt, line@, g, self.format())
                    },
                },
            },
    {
        let re = match compile(self.regex_pattern.as_str()) {
            Ok(re) => re,
            Err(_) => {
                return None;
            },
        };
        match self.parse_line(line, &re) {
            Ok(Some(p)) => {
                let ghost pg = p;
                let rec = LogRecord {
                    id: 0,
                    ip: p.ip,
                    url: p.url,
                    timestamp: p.timestamp,
                    request_type: p.request_type,
                    request_domain: p.request_domain,
                    status_code: p.status_code,
                    response_size: p.response_size,
                    response_time: None,
                    user_agent: p.user_agent,
                    log_line: p.log_line,
                    created_at: system_now(),
                };
                Some((rec, p.response_time))
            },
            _ => None,
        }
    }
}

/// `rec` and the response-time text `rt` are the stored form of `line`, whose groups are `g`.
pub open spec fn record_of(rec: LogRecord, rt: Option<String>, line: Seq<char>, g: Seq<Option<Seq<char>>>, fmt: Seq<char>) -> bool {
    let parts = request_parts(request_line_of(g))->Ok_0;
    &&& rec.id == 0
    &&& rec.ip@ == group_at(g, 1)->0
    &&& rec.url@ == parts.1
    &&& rec.log_line@ == line
    &&& rec.timestamp == naive_parse(group_at(g, 2)->0, fmt)->Ok_0
    &&& rec.request_type@ == parts.0
    &&& rec.request_domain@ == parts.2
    &&& rec.status_code == (match group_at(g, 6) { Some(t) => parse_u16_spec(t), None => None })
    &&& rec.response_size == (match group_at(g, 7) { Some(t) => parse_u64_spec(t), None => None })
    &&& rec.response_time is None
    &&& (match rt { Some(t) => group_at(g, 8) == Some(t@), None => group_at(g, 8) is None })
    &&& (match rec.user_agent { Some(t) => group_at(g, 9) == Some(t@), None => group_at(g, 9) is None })
}

/// Capture group `i` of `groups`, when present.
fn group_opt(groups: &Vec<Option<String>>, i: usize) -> (r: Option<String>)
    ensures
        match r {
            Some(t) => group_at(groups_view(groups@), i as int) == Some(t@),
            None => group_at(groups_view(groups@), i as int) is None,
        },
{
    if i < groups.len() {
        match &groups[i] {
            Some(t) => Some(t.clone()),
            None => None,
        }
    } else {
        None
    }
}

} // verus!
