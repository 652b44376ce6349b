//! The security tab's figures: counts of recent requests that look like known
//! attacks, the threat level of an IP, and the marking of suspicious fragments.
use vstd::prelude::*;
use crate::log_data::{LogData, LogEntry, EntryModel, models, strs, slice_strs, mentions_any, mentions_any_exec};
use crate::table::{has_key, value_of};
use crate::keys::{KeyCode, KeyInput};
use crate::selection::{TabInput, row_down, row_down_of, row_up, row_up_of, list_next, list_next_of, list_previous, list_previous_of};
use crate::requests::matches_query;
use crate::memory_db::pair_view;
use crate::text::{contains_sub, chars_of, string_of, to_lowercase, lowercase, push_str, push_chars, push_decimal, decimal, slice_to_vec};

verus! {

/// The recent log lines of the entries of `s`, entry after entry.
pub open spec fn recent_lines(s: Seq<(Seq<char>, EntryModel)>) -> Seq<Seq<char>>
    decreases s.len(),
{
    if s.len() == 0 {
        Seq::empty()
    } else {
        recent_lines(s.drop_last()) + s.last().1.last_requests
    }
}

/// The number of `lines` that, lower-cased, mention one of `pats`.
pub open spec fn lines_mentioning(lines: Seq<Seq<char>>, pats: Seq<Seq<char>>) -> nat
    decreases lines.len(),
{
    if lines.len() == 0 {
        0
    } else {
        lines_mentioning(lines.drop_last(), pats) + if mentions_any(lowercase(lines.last()), pats) { 1nat } else { 0nat }
    }
}

proof fn lemma_lines_mentioning_concat(a: Seq<Seq<char>>, b: Seq<Seq<char>>, pats: Seq<Seq<char>>)
    ensures
        lines_mentioning(a + b, pats) == lines_mentioning(a, pats) + lines_mentioning(b, pats),
        lines_mentioning(b, pats) <= b.len(),
    decreases b.len(),
{
    if b.len() == 0 {
        assert(a + b =~= a);
    } else {
        lemma_lines_mentioning_concat(a, b.drop_last(), pats);
        assert((a + b).drop_last() =~= a + b.drop_last());
    }
}

/// The number of recent requests, over all IPs, whose lower-cased log line mentions
/// one of `patterns`.
pub fn count_patterns_in_logs(log_data: &LogData, patterns: &Vec<&str>) -> (r: usize)
    requires
        recent_lines(models(log_data.by_ip.seq())).len() <= usize::MAX,
    ensures
        r == lines_mentioning(recent_lines(models(log_data.by_ip.seq())), slice_strs(patterns@)),
{
    let ghost s = models(log_data.by_ip.seq());
    let ghost pv = slice_strs(patterns@);
    let mut count: usize = 0;
    let mut i: usize = 0;
    while i < log_data.by_ip.len()
        invariant
            s == models(log_data.by_ip.seq()),
            pv == slice_strs(patterns@),
            i <= s.len(),
            recent_lines(s).len() <= usize::MAX,
            count == lines_mentioning(recent_lines(s.take(i as int)), pv),
            recent_lines(s.take(i as int)).len() <= recent_lines(s).len(),
        decreases s.len() - i,
    {
        let entry: &LogEntry = log_data.by_ip.value_at(i);
        let ghost before = recent_lines(s.take(i as int));
        let ghost lines = entry@.last_requests;
        proof {
            assert(s.take(i as int + 1).drop_last() =~= s.take(i as int));
            assert(s[i as int].1 == entry@);
            lemma_recent_prefix(s, i as int + 1);
        }
        let mut j: usize = 0;
        while j < entry.last_requests.len()
            invariant
                lines == strs(entry.last_requests@),
                j <= lines.len(),
                before.len() + lines.len() <= usize::MAX,
                count == lines_mentioning(before + lines.take(j as int), pv),
                pv == slice_strs(patterns@),
            decreases entry.last_requests.len() - j,
        {
            let lower = chars_of(to_lowercase(entry.last_requests[j].as_str()).as_str());
            proof {
                lemma_lines_mentioning_concat(before, lines.take(j as int), pv);
                lemma_lines_mentioning_concat(Seq::empty(), before, pv);
                assert(Seq::<Seq<char>>::empty() + before =~= before);
                assert((before + lines.take(j as int + 1)).drop_last() =~= before + lines.take(j as int));
                assert(lines[j as int] == entry.last_requests@[j as int]@);
            }
            if mentions_any_exec(lower.as_slice(), patterns) {
                count = count + 1;
            }
            j += 1;
        }
        assert(lines.take(j as int) =~= lines);
        i += 1;
    }
    assert(s.take(i as int) =~= s);
    count
}

proof fn lemma_recent_prefix(s: Seq<(Seq<char>, EntryModel)>, i: int)
    requires
        0 <= i <= s.len(),
    ensures
        recent_lines(s.take(i)).len() <= recent_lines(s).len(),
    decreases s.len(),
{
    if i < s.len() {
        assert(s.drop_last().take(i) =~= s.take(i));
        lemma_recent_prefix(s.drop_last(), i);
    } else {
        assert(s.take(i) =~= s);
    }
}

/// Fragments of SQL injection.
pub open spec fn sql_patterns() -> Seq<Seq<char>> {
    seq!["'"@, "union"@, "select"@, "drop"@, "insert"@, "update"@, "delete"@, "exec"@, "xp_"@]
}

/// Fragments of cross-site scripting.
pub open spec fn xss_patterns() -> Seq<Seq<char>> {
    seq!["<script>"@, "javascript:"@, "onload="@, "onerror="@, "onclick="@, "alert("@, "document.cookie"@]
}

/// Fragments of path traversal.
pub open spec fn path_patterns() -> Seq<Seq<char>> {
    seq!["../"@, "..\\"@, "/etc/"@, "/proc/"@, "c:\\"@, "windows\\"@]
}

/// Fragments of command injection.
pub open spec fn command_patterns() -> Seq<Seq<char>> {
    seq![";"@, "|"@, "&"@, "`"@, "$("@, "eval("@, "system("@, "exec("@]
}

/// Authentication endpoints watched for brute force.
pub open spec fn login_patterns() -> Seq<Seq<char>> {
    seq!["/login"@, "/auth"@, "/admin"@, "/wp-admin"@]
}

fn sql_list() -> (r: Vec<&'static str>)
    ensures
        slice_strs(r@) == sql_patterns(),
{
    let r = vec!["'", "union", "select", "drop", "insert", "update", "delete", "exec", "xp_"];
    assert(slice_strs(r@) =~= sql_patterns());
    r
}

fn xss_list() -> (r: Vec<&'static str>)
    ensures
        slice_strs(r@) == xss_patterns(),
{
    let r = vec!["<script>", "javascript:", "onload=", "onerror=", "onclick=", "alert(", "document.cookie"];
    assert(slice_strs(r@) =~= xss_patterns());
    r
}

fn path_list() -> (r: Vec<&'static str>)
    ensures
        slice_strs(r@) == path_patterns(),
{
    let r = vec!["../", "..\\", "/etc/", "/proc/", "c:\\", "windows\\"];
    assert(slice_strs(r@) =~= path_patterns());
    r
}

fn command_list() -> (r: Vec<&'static str>)
    ensures
        slice_strs(r@) == command_patterns(),
{
    let r = vec![";", "|", "&", "`", "$(", "eval(", "system(", "exec("];
    assert(slice_strs(r@) =~= command_patterns());
    r
}

fn login_list() -> (r: Vec<&'static str>)
    ensures
        slice_strs(r@) == login_patterns(),
{
    let r = vec!["/login", "/auth", "/admin", "/wp-admin"];
    assert(slice_strs(r@) =~= login_patterns());
    r
}

/// The number of recent requests that look like SQL injection.
pub fn detect_sql_injection(log_data: &LogData) -> (r: usize)
    requires
        recent_lines(models(log_data.by_ip.seq())).len() <= usize::MAX,
    ensures
        r == lines_mentioning(recent_lines(models(log_data.by_ip.seq())), sql_patterns()),
{
    count_patterns_in_logs(log_data, &sql_list())
}

/// The number of recent requests that look like cross-site scripting.
pub fn detect_xss(log_data: &LogData) -> (r: usize)
    requires
        recent_lines(models(log_data.by_ip.seq())).len() <= usize::MAX,
    ensures
        r == lines_mentioning(recent_lines(models(log_data.by_ip.seq())), xss_patterns()),
{
    count_patterns_in_logs(log_data, &xss_list())
}

/// The number of recent requests that look like path traversal.
pub fn detect_path_traversal(log_data: &LogData) -> (r: usize)
    requires
        recent_lines(models(log_data.by_ip.seq())).len() <= usize::MAX,
    ensures
        r == lines_mentioning(recent_lines(models(log_data.by_ip.seq())), path_patterns()),
{
    count_patterns_in_logs(log_data, &path_list())
}

/// The number of recent requests that look like command injection.
pub fn detect_command_injection(log_data: &LogData) -> (r: usize)
    requires
        recent_lines(models(log_data.by_ip.seq())).len() <= usize::MAX,
    ensures
        r == lines_mentioning(recent_lines(models(log_data.by_ip.seq())), command_patterns()),
{
    count_patterns_in_logs(log_data, &command_list())
}

/// The number of `lines` that (without lower-casing) mention one of `pats`.
pub open spec fn exact_mentions(lines: Seq<Seq<char>>, pats: Seq<Seq<char>>) -> nat
    decreases lines.len(),
{
    if lines.len() == 0 {
        0
    } else {
        exact_mentions(lines.drop_last(), pats) + if mentions_any(lines.last(), pats) { 1nat } else { 0nat }
    }
}

/// The number of entries of `s` with more than 10 recent requests to an
/// authentication endpoint.
pub open spec fn brute_force_ips(s: Seq<(Seq<char>, EntryModel)>) -> nat
    decreases s.len(),
{
    if s.len() == 0 {
        0
    } else {
        brute_force_ips(s.drop_last()) + if exact_mentions(s.last().1.last_requests, login_patterns()) > 10 { 1nat } else { 0nat }
    }
}

proof fn lemma_exact_mentions_len(lines: Seq<Seq<char>>, pats: Seq<Seq<char>>)
    ensures
        exact_mentions(lines, pats) <= lines.len(),
    decreases lines.len(),
{
    if lines.len() > 0 {
        lemma_exact_mentions_len(lines.drop_last(), pats);
    }
}

proof fn lemma_brute_force_len(s: Seq<(Seq<char>, EntryModel)>)
    ensures
        brute_force_ips(s) <= s.len(),
    decreases s.len(),
{
    if s.len() > 0 {
        lemma_brute_force_len(s.drop_last());
    }
}

/// The number of IPs with more than 10 recent requests to an authentication endpoint.
pub fn detect_brute_force(log_data: &LogData) -> (r: usize)
    ensures
        r == brute_force_ips(models(log_data.by_ip.seq())),
{
    let ghost s = models(log_data.by_ip.seq());
    let pats = login_list();
    let mut count: usize = 0;
    let mut i: usize = 0;
    while i < log_data.by_ip.len()
        invariant
            s == models(log_data.by_ip.seq()),
            slice_strs(pats@) == login_patterns(),
            i <= s.len(),
            count == brute_force_ips(s.take(i as int)),
        decreases s.len() - i,
    {
        let entry: &LogEntry = log_data.by_ip.value_at(i);
        let ghost lines = entry@.last_requests;
        proof {
            assert(s.take(i as int + 1).drop_last() =~= s.take(i as int));
            assert(s[i as int].1 == entry@);
            lemma_brute_force_len(s.take(i as int));
        }
        let mut auth: usize = 0;
        let mut j: usize = 0;
        while j < entry.last_requests.len()
            invariant
                lines == strs(entry.last_requests@),
                j <= lines.len(),
                auth == exact_mentions(lines.take(j as int), login_patterns()),
                slice_strs(pats@) == login_patterns(),
            decreases entry.last_requests.len() - j,
        {
            let line = chars_of(entry.last_requests[j].as_str());
            proof {
                assert(lines.take(j as int + 1).drop_last() =~= lines.take(j as int));
                lemma_exact_mentions_len(lines.take(j as int), login_patterns());
            }
            if mentions_any_exec(line.as_slice(), &pats) {
                auth = auth + 1;
            }
            j += 1;
        }
        assert(lines.take(j as int) =~= lines);
        if auth > 10 {
            count = count + 1;
        }
        i += 1;
    }
    assert(s.take(i as int) =~= s);
    count
}

/// The threat level of an IP with `count` requests and `patterns` distinct attack
/// signatures: HIGH above 100 requests or 3 signatures, MEDIUM above 50 requests or
/// 1 signature, LOW otherwise.
pub open spec fn threat_level(count: nat, patterns: nat) -> Seq<char> {
    if count > 100 || patterns > 3 {
        "HIGH"@
    } else if count > 50 || patterns > 1 {
        "MEDIUM"@
    } else {
        "LOW"@
    }
}

/// The threat level of an IP.
pub fn get_threat_level(count: usize, patterns: &Vec<String>) -> (r: &'static str)
    ensures
        r@ == threat_level(count as nat, patterns@.len()),
{
    if count > 100 || patterns.len() > 3 {
        "HIGH"
    } else if count > 50 || patterns.len() > 1 {
        "MEDIUM"
    } else {
        "LOW"
    }
}

/// One detection line: a label and its count, present when the count is positive.
pub open spec fn detection(label: Seq<char>, n: nat) -> Seq<Seq<char>> {
    if n > 0 { seq![label + ": "@ + decimal(n)] } else { Seq::empty() }
}

/// The texts `parts` joined with " | ".
pub open spec fn joined(parts: Seq<Seq<char>>) -> Seq<char>
    decreases parts.len(),
{
    if parts.len() == 0 {
        Seq::empty()
    } else if parts.len() == 1 {
        parts[0]
    } else {
        joined(parts.drop_last()) + " | "@ + parts.last()
    }
}

/// The summary of the additional detections over the recent requests of `s`.
pub open spec fn detections_text(s: Seq<(Seq<char>, EntryModel)>) -> Seq<char> {
    let lines = recent_lines(s);
    let parts = detection("SQL Injection"@, lines_mentioning(lines, sql_patterns()))
        + detection("XSS"@, lines_mentioning(lines, xss_patterns()))
        + detection("Path Traversal"@, lines_mentioning(lines, path_patterns()))
        + detection("Command Injection"@, lines_mentioning(lines, command_patterns()))
        + detection("Brute Force"@, brute_force_ips(s));
    if parts.len() == 0 { "No additional threats detected"@ } else { joined(parts) }
}

fn push_detection(parts: &mut Vec<Vec<char>>, label: &str, n: usize)
    ensures
        final(parts)@.map_values(|p: Vec<char>| p@) == old(parts)@.map_values(|p: Vec<char>| p@) + detection(label@, n as nat),
{
    if n > 0 {
        let mut line: Vec<char> = Vec::new();
        push_str(&mut line, label);
        push_str(&mut line, ": ");
        push_decimal(&mut line, n as u64);
        let ghost prev = parts@;
        parts.push(line);
        assert(parts@.map_values(|p: Vec<char>| p@) =~= prev.map_values(|p: Vec<char>| p@) + detection(label@, n as nat));
    } else {
        assert(parts@.map_values(|p: Vec<char>| p@) =~= old(parts)@.map_values(|p: Vec<char>| p@) + detection(label@, n as nat));
    }
}

/// The additional detections: for SQL injection, cross-site scripting, path
/// traversal and command injection, the number of recent requests that look like
/// them, and the number of IPs that look like brute force, each shown when positive
/// and joined with " | "; or a line saying nothing was detected.
pub fn get_additional_security_detections(log_data: &LogData) -> (r: String)
    requires
        recent_lines(models(log_data.by_ip.seq())).len() <= usize::MAX,
    ensures
        r@ == detections_text(models(log_data.by_ip.seq())),
{
    let mut parts: Vec<Vec<char>> = Vec::new();
    push_detection(&mut parts, "SQL Injection", detect_sql_injection(log_data));
    push_detection(&mut parts, "XSS", detect_xss(log_data));
    push_detection(&mut parts, "Path Traversal", detect_path_traversal(log_data));
    push_detection(&mut parts, "Command Injection", detect_command_injection(log_data));
    push_detection(&mut parts, "Brute Force", detect_brute_force(log_data));
    let ghost pv = parts@.map_values(|p: Vec<char>| p@);
    assert(pv =~= detection("SQL Injection"@, detect_sql_injection_spec(log_data))
        + detection("XSS"@, lines_mentioning(recent_lines(models(log_data.by_ip.seq())), xss_patterns()))
        + detection("Path Traversal"@, lines_mentioning(recent_lines(models(log_data.by_ip.seq())), path_patterns()))
        + detection("Command Injection"@, lines_mentioning(recent_lines(models(log_data.by_ip.seq())), command_patterns()))
        + detection("Brute Force"@, brute_force_ips(models(log_data.by_ip.seq()))));
    if parts.len() == 0 {
        return String::from_str("No additional threats detected");
    }
    let mut out: Vec<char> = Vec::new();
    let mut i: usize = 0;
    while i < parts.len()
        invariant
            pv == parts@.map_values(|p: Vec<char>| p@),
            0 < parts@.len(),
            i <= parts@.len(),
            i == 0 ==> out@.len() == 0,
            i > 0 ==> out@ == joined(pv.take(i as int)),
        decreases parts.len() - i,
    {
        if i > 0 {
            push_str(&mut out, " | ");
        }
        let ghost before = out@;
        let part = &parts[i];
        push_chars(&mut out, part.as_slice());
        proof {
            assert(pv.take(i as int + 1).drop_last() =~= pv.take(i as int));
            assert(pv[i as int] == part@);
            if i == 0 {
                assert(out@ =~= part@);
            }
        }
        i += 1;
    }
    assert(pv.take(i as int) =~= pv);
    string_of(out.as_slice())
}

/// The SQL-injection count (as `detect_sql_injection` gives it).
pub open spec fn detect_sql_injection_spec(log_data: &LogData) -> nat {
    lines_mentioning(recent_lines(models(log_data.by_ip.seq())), sql_patterns())
}

/// `s` with every occurrence of `p`, scanning left to right without overlaps,
/// replaced by `r` (what `str::replace` gives for a non-empty `p`).
pub open spec fn replace_all(s: Seq<char>, p: Seq<char>, r: Seq<char>) -> Seq<char>
    decreases s.len(),
{
    if p.len() == 0 || s.len() < p.len() {
        s
    } else if s.take(p.len() as int) == p {
        r + replace_all(s.skip(p.len() as int), p, r)
    } else {
        seq![s[0]] + replace_all(s.skip(1), p, r)
    }
}

/// `s` with every occurrence of `p` replaced by `r`.
pub fn replace_chars(s: &[char], p: &[char], r: &[char]) -> (out: Vec<char>)
    requires
        p@.len() > 0,
    ensures
        out@ == replace_all(s@, p@, r@),
{
    let mut out: Vec<char> = Vec::new();
    let mut i: usize = 0;
    assert(s@.skip(0) =~= s@);
    assert(out@ + replace_all(s@, p@, r@) =~= replace_all(s@, p@, r@));
    while i < s.len()
        invariant
            i <= s@.len(),
            p@.len() > 0,
            out@ + replace_all(s@.skip(i as int), p@, r@) == replace_all(s@, p@, r@),
        decreases s.len() - i,
    {
        let ghost rest = s@.skip(i as int);
        if p.len() <= s.len() - i && crate::text::matches_at(s, p, i) {
            assert(rest.take(p@.len() as int) =~= s@.subrange(i as int, i + p@.len()));
            assert(rest.skip(p@.len() as int) =~= s@.skip(i + p@.len()));
            let ghost before = out@;
            push_chars(&mut out, r);
            assert(before + (r@ + replace_all(s@.skip(i + p@.len()), p@, r@)) =~= out@ + replace_all(s@.skip(i + p@.len()), p@, r@));
            i = i + p.len();
        } else {
            if p.len() <= s.len() - i {
                assert(rest.take(p@.len() as int) =~= s@.subrange(i as int, i + p@.len()));
            }
            assert(rest.skip(1) =~= s@.skip(i + 1));
            let ghost before = out@;
            if p.len() <= s.len() - i {
                out.push(s[i]);
                assert(before + (seq![s@[i as int]] + replace_all(s@.skip(i + 1), p@, r@)) =~= out@ + replace_all(s@.skip(i + 1), p@, r@));
                i = i + 1;
            } else {
                let tail = slice_to_vec(s, i, s.len());
                push_chars(&mut out, tail.as_slice());
                assert(s@.skip(i as int) =~= s@.subrange(i as int, s@.len() as int));
                i = s.len();
                assert(s@.skip(i as int) =~= Seq::<char>::empty());
            }
        }
    }
    assert(s@.skip(i as int) =~= Seq::<char>::empty());
    out
}

/// The fragments marked in a log line, with their marks, in the order they are applied.
pub open spec fn highlight_pairs() -> Seq<(Seq<char>, Seq<char>)> {
    seq![
        ("'"@, "🔴"@),
        ("union"@, "🔴"@),
        ("select"@, "🔴"@),
        ("<script>"@, "🟡"@),
        ("javascript:"@, "🟡"@),
        ("../"@, "🟡"@),
        (";"@, "🟡"@),
        ("|"@, "🟡"@),
        ("admin"@, "🟡"@),
        ("login"@, "🟡"@),
    ]
}

fn highlight_list() -> (r: Vec<(&'static str, &'static str)>)
    ensures
        r@.map_values(|p: (&str, &str)| (p.0@, p.1@)) == highlight_pairs(),
{
    let r = vec![
        ("'", "🔴"),
        ("union", "🔴"),
        ("select", "🔴"),
        ("<script>", "🟡"),
        ("javascript:", "🟡"),
        ("../", "🟡"),
        (";", "🟡"),
        ("|", "🟡"),
        ("admin", "🟡"),
        ("login", "🟡"),
    ];
    assert(r@.map_values(|p: (&str, &str)| (p.0@, p.1@)) =~= highlight_pairs());
    r
}

/// The mark put around fragment `p`: `icon[p]icon`.
pub open spec fn marked(p: Seq<char>, icon: Seq<char>) -> Seq<char> {
    icon + "["@ + p + "]"@ + icon
}

/// `line` after marking the fragments of `pairs` in turn: a fragment whose lower-cased
/// form occurs in the (lower-cased) line so far has its exact occurrences marked.
pub open spec fn highlighted(line: Seq<char>, pairs: Seq<(Seq<char>, Seq<char>)>) -> Seq<char>
    decreases pairs.len(),
{
    if pairs.len() == 0 {
        line
    } else {
        let h = highlighted(line, pairs.drop_last());
        let (p, icon) = pairs.last();
        if contains_sub(lowercase(h), p) { replace_all(h, p, marked(p, icon)) } else { h }
    }
}

/// `log_line` with its suspicious fragments marked.
pub fn highlight_suspicious_patterns(log_line: &str) -> (r: String)
    ensures
        r@ == highlighted(log_line@, highlight_pairs()),
{
    let pairs = highlight_list();
    let ghost pv = highlight_pairs();
    let mut h = chars_of(log_line);
    let mut i: usize = 0;
    while i < pairs.len()
        invariant
            pairs@.map_values(|p: (&str, &str)| (p.0@, p.1@)) == pv,
            pv == highlight_pairs(),
            i <= pv.len(),
            h@ == highlighted(log_line@, pv.take(i as int)),
        decreases pairs.len() - i,
    {
        let (pat, icon) = pairs[i];
        proof {
            assert(pv.take(i as int + 1).drop_last() =~= pv.take(i as int));
            assert(pv[i as int] == (pat@, icon@));
            reveal_strlit("'");
            reveal_strlit("union");
            reveal_strlit("select");
            reveal_strlit("<script>");
            reveal_strlit("javascript:");
            reveal_strlit("../");
            reveal_strlit(";");
            reveal_strlit("|");
            reveal_strlit("admin");
            reveal_strlit("login");
        }
        let lower = chars_of(to_lowercase(string_of(h.as_slice()).as_str()).as_str());
        let pc = chars_of(pat);
        if crate::text::contains(lower.as_slice(), pc.as_slice()) {
            let mut rep: Vec<char> = Vec::new();
            push_str(&mut rep, icon);
            push_str(&mut rep, "[");
            push_str(&mut rep, pat);
            push_str(&mut rep, "]");
            push_str(&mut rep, icon);
            assert(pc@.len() > 0);
            h = replace_chars(h.as_slice(), pc.as_slice(), rep.as_slice());
        }
        i += 1;
    }
    assert(pv.take(i as int) =~= pv);
    string_of(h.as_slice())
}

// ---------------------------------------------------------------------------
// The tab's state: the list of suspicious IPs (filtered by a search text) and the
// recent requests of the selected one.
// ---------------------------------------------------------------------------

/// The IPs of `s` that contain `query` (in lower case), in order.
pub open spec fn keep_matching_ips(s: Seq<(Seq<char>, usize)>, query: Seq<char>) -> Seq<(Seq<char>, usize)>
    decreases s.len(),
{
    if s.len() == 0 {
        Seq::empty()
    } else {
        let r = keep_matching_ips(s.drop_last(), query);
        if matches_query(s.last().0, query) { r.push(s.last()) } else { r }
    }
}

/// The suspicious IPs listed for the search text `query`: all when it is empty.
pub open spec fn filtered_ips(s: Seq<(Seq<char>, usize)>, query: Seq<char>) -> Seq<(Seq<char>, usize)> {
    if query.len() == 0 { s } else { keep_matching_ips(s, query) }
}

/// Every IP listed for a search contains the search text (both in lower case) and is
/// one of the suspicious IPs, with its count.
pub proof fn law_filtered_ips_match(s: Seq<(Seq<char>, usize)>, query: Seq<char>)
    requires
        query.len() > 0,
    ensures
        filtered_ips(s, query).len() <= s.len(),
        forall|i: int| 0 <= i < filtered_ips(s, query).len() ==> matches_query(#[trigger] filtered_ips(s, query)[i].0, query)
            && s.contains(filtered_ips(s, query)[i]),
    decreases s.len(),
{
    if s.len() > 0 {
        law_filtered_ips_match(s.drop_last(), query);
        let r = keep_matching_ips(s.drop_last(), query);
        assert forall|i: int| 0 <= i < filtered_ips(s, query).len() implies matches_query(#[trigger] filtered_ips(s, query)[i].0, query)
            && s.contains(filtered_ips(s, query)[i]) by {
            if i < r.len() {
                assert(r[i] == filtered_ips(s.drop_last(), query)[i]);
                let j = choose|j: int| 0 <= j < s.drop_last().len() && s.drop_last()[j] == r[i];
                assert(s[j] == r[i]);
            } else {
                assert(s[s.len() - 1] == s.last());
            }
        }
    }
}

/// The suspicious IPs of `top` that match the search text `input`.
pub fn filter_suspicious(top: &Vec<(String, usize)>, input: &[char]) -> (r: Vec<(String, usize)>)
    ensures
        pair_view(r@) == filtered_ips(pair_view(top@), input@),
{
    let ghost s = pair_view(top@);
    let mut r: Vec<(String, usize)> = Vec::new();
    let empty = input.len() == 0;
    let lqc = if empty { Vec::new() } else {
        chars_of(to_lowercase(string_of(input).as_str()).as_str())
    };
    let mut i: usize = 0;
    while i < top.len()
        invariant
            s == pair_view(top@),
            i <= s.len(),
            empty == (input@.len() == 0),
            !empty ==> lqc@ == lowercase(input@),
            pair_view(r@) == (if empty { s.take(i as int) } else { keep_matching_ips(s.take(i as int), input@) }),
        decreases s.len() - i,
    {
        let ghost prev = r@;
        let keep = if empty {
            true
        } else {
            let ll = chars_of(to_lowercase(top[i].0.as_str()).as_str());
            crate::text::contains(ll.as_slice(), lqc.as_slice())
        };
        assert(s.take(i as int + 1).drop_last() =~= s.take(i as int));
        if keep {
            let ip = string_of(chars_of(top[i].0.as_str()).as_slice());
            r.push((ip, top[i].1));
            assert(pair_view(r@) =~= pair_view(prev).push(s[i as int]));
        }
        if empty {
            assert(pair_view(r@) =~= s.take(i as int + 1));
        }
        i += 1;
    }
    assert(s.take(i as int) =~= s);
    r
}

/// The icon of a threat level.
pub open spec fn threat_icon_of(level: Seq<char>) -> Seq<char> {
    if level == "HIGH"@ {
        "🔴"@
    } else if level == "MEDIUM"@ {
        "🟡"@
    } else if level == "LOW"@ {
        "🟢"@
    } else {
        "⚪"@
    }
}

/// The icon shown beside an IP of threat level `level`.
pub fn threat_icon(level: &str) -> (r: &'static str)
    ensures
        r@ == threat_icon_of(level@),
{
    let cs = chars_of(level);
    let high = chars_of("HIGH");
    let medium = chars_of("MEDIUM");
    let low = chars_of("LOW");
    if crate::heatmap::same_text(cs.as_slice(), high.as_slice()) {
        "🔴"
    } else if crate::heatmap::same_text(cs.as_slice(), medium.as_slice()) {
        "🟡"
    } else if crate::heatmap::same_text(cs.as_slice(), low.as_slice()) {
        "🟢"
    } else {
        "⚪"
    }
}

/// The texts `parts` joined with ", ".
pub open spec fn comma_joined(parts: Seq<Seq<char>>) -> Seq<char>
    decreases parts.len(),
{
    if parts.len() == 0 {
        Seq::empty()
    } else if parts.len() == 1 {
        parts[0]
    } else {
        comma_joined(parts.drop_last()) + ", "@ + parts.last()
    }
}

/// The description of an IP's attack signatures.
pub open spec fn patterns_text(patterns: Seq<Seq<char>>) -> Seq<char> {
    if patterns.len() == 0 { "Suspicious Activity"@ } else { "Patterns: "@ + comma_joined(patterns) }
}

/// The description shown beside an IP with attack signatures `patterns`.
pub fn pattern_text(patterns: &Vec<String>) -> (r: String)
    ensures
        r@ == patterns_text(patterns@.map_values(|p: String| p@)),
{
    let ghost pv = patterns@.map_values(|p: String| p@);
    if patterns.len() == 0 {
        return String::from_str("Suspicious Activity");
    }
    let mut out: Vec<char> = Vec::new();
    let mut i: usize = 0;
    while i < patterns.len()
        invariant
            pv == patterns@.map_values(|p: String| p@),
            0 < patterns@.len(),
            i <= patterns@.len(),
            i == 0 ==> out@.len() == 0,
            i > 0 ==> out@ == comma_joined(pv.take(i as int)),
        decreases patterns.len() - i,
    {
        if i > 0 {
            push_str(&mut out, ", ");
        }
        let part = chars_of(patterns[i].as_str());
        push_chars(&mut out, part.as_slice());
        proof {
            assert(pv.take(i as int + 1).drop_last() =~= pv.take(i as int));
            assert(pv[i as int] == part@);
            if i == 0 {
                assert(out@ =~= part@);
            }
        }
        i += 1;
    }
    assert(pv.take(i as int) =~= pv);
    let mut text: Vec<char> = Vec::new();
    push_str(&mut text, "Patterns: ");
    push_chars(&mut text, out.as_slice());
    string_of(text.as_slice())
}

/// The Security tab's state: the selected suspicious IP, the selected line of the
/// log view, whether the full log view is open, the search text, and the active
/// panel (0 the IP list, 1 the log panel).
pub struct SecurityTab {
    pub selected: Option<usize>,
    pub detail_selected: Option<usize>,
    pub show_log_detail: bool,
    pub input: Vec<char>,
    pub active_panel: usize,
}

/// The Security tab's state as values.
pub struct SecurityModel {
    pub selected: Option<usize>,
    pub detail_selected: Option<usize>,
    pub show_log_detail: bool,
    pub input: Seq<char>,
    pub active_panel: usize,
}

impl View for SecurityTab {
    type V = SecurityModel;

    open spec fn view(&self) -> SecurityModel {
        SecurityModel {
            selected: self.selected,
            detail_selected: self.detail_selected,
            show_log_detail: self.show_log_detail,
            input: self.input@,
            active_panel: self.active_panel,
        }
    }
}

/// The state after a key press, given the number of IPs the list shows.
pub open spec fn security_step(t: SecurityModel, k: KeyInput, listed: nat) -> (SecurityModel, TabInput) {
    match k.code {
        KeyCode::Up => (
            if t.show_log_detail || t.active_panel != 0 {
                SecurityModel { detail_selected: list_previous(t.detail_selected), ..t }
            } else {
                SecurityModel { selected: row_up(t.selected), ..t }
            },
            TabInput::Handled,
        ),
        KeyCode::Down => (
            if t.show_log_detail || t.active_panel != 0 {
                SecurityModel { detail_selected: list_next(t.detail_selected), ..t }
            } else {
                SecurityModel { selected: row_down(t.selected, listed), ..t }
            },
            TabInput::Handled,
        ),
        KeyCode::Left => (SecurityModel {
            active_panel: if t.active_panel > 0 { (t.active_panel - 1) as usize } else { t.active_panel },
            ..t
        }, TabInput::Handled),
        KeyCode::Right => (SecurityModel {
            active_panel: if t.active_panel < 1 { (t.active_panel + 1) as usize } else { t.active_panel },
            ..t
        }, TabInput::Handled),
        KeyCode::Enter => (
            if !t.show_log_detail { SecurityModel { show_log_detail: true, detail_selected: Some(0), ..t } } else { t },
            TabInput::Handled,
        ),
        KeyCode::Esc => (SecurityModel { show_log_detail: false, ..t }, TabInput::Handled),
        KeyCode::Backspace => (
            if t.active_panel == 0 {
                SecurityModel {
                    selected: None,
                    input: if t.input.len() > 0 { t.input.drop_last() } else { t.input },
                    ..t
                }
            } else {
                t
            },
            TabInput::Handled,
        ),
        KeyCode::Char(c) => (
            if t.active_panel == 0 { SecurityModel { selected: None, input: t.input.push(c), ..t } } else { t },
            TabInput::Handled,
        ),
        _ => (t, TabInput::Ignored),
    }
}

/// The recent requests of `ip` in `log_data`, as the log panel shows them.
pub open spec fn ip_log_lines(log_data: &LogData, ip: Seq<char>) -> Seq<Seq<char>> {
    if has_key(log_data.by_ip.seq(), ip) {
        value_of(log_data.by_ip.seq(), ip).last_requests@.map_values(|l: String| highlighted(l@, highlight_pairs()))
    } else {
        Seq::empty()
    }
}

impl SecurityTab {
    /// The tab on the IP list, with its first row selected, no search text and the
    /// log view closed.
    pub fn new() -> (r: Self)
        ensures
            r@ == (SecurityModel { selected: Some(0), detail_selected: None, show_log_detail: false, input: Seq::empty(), active_panel: 0 }),
    {
        let r = SecurityTab { selected: Some(0), detail_selected: None, show_log_detail: false, input: Vec::new(), active_panel: 0 };
        assert(r@.input =~= Seq::<char>::empty());
        r
    }

    /// Handles a key: Up and Down move in the IP list, or in the log lines when the
    /// log view is open or the log panel is active; Left and Right change the panel;
    /// Enter opens the log view, Esc closes it; on the IP list a character extends the
    /// search and Backspace shortens it, clearing the selection. `top_suspicious`
    /// are the suspicious IPs before the search.
    pub fn handle_input(&mut self, key: KeyInput, top_suspicious: &Vec<(String, usize)>) -> (r: TabInput)
        ensures
            (final(self)@, r) == security_step(old(self)@, key,
                filtered_ips(pair_view(top_suspicious@), old(self).input@).len()),
    {
        match key.code {
            KeyCode::Up => {
                if self.show_log_detail || self.active_panel != 0 {
                    self.detail_selected = list_previous_of(self.detail_selected);
                } else {
                    self.selected = row_up_of(self.selected);
                }
                TabInput::Handled
            },
            KeyCode::Down => {
                if self.show_log_detail || self.active_panel != 0 {
                    self.detail_selected = list_next_of(self.detail_selected);
                } else {
                    let listed = filter_suspicious(top_suspicious, self.input.as_slice());
                    self.selected = row_down_of(self.selected, listed.len());
                }
                TabInput::Handled
            },
            KeyCode::Left => {
                if self.active_panel > 0 {
                    self.active_panel = self.active_panel - 1;
                }
                TabInput::Handled
            },
            KeyCode::Right => {
                if self.active_panel < 1 {
                    self.active_panel = self.active_panel + 1;
                }
                TabInput::Handled
            },
            KeyCode::Enter => {
                if !self.show_log_detail {
                    self.show_log_detail = true;
                    self.detail_selected = Some(0);
                }
                TabInput::Handled
            },
            KeyCode::Esc => {
                self.show_log_detail = false;
                TabInput::Handled
            },
            KeyCode::Backspace => {
                if self.active_panel == 0 {
                    self.selected = None;
                    self.input.pop();
                }
                TabInput::Handled
            },
            KeyCode::Char(c) => {
                if self.active_panel == 0 {
                    self.selected = None;
                    self.input.push(c);
                }
                TabInput::Handled
            },
            _ => TabInput::Ignored,
        }
    }

    /// The IP at the selected row of the (searched) list of `top_suspicious`, if any.
    pub fn get_selected_ip(&self, top_suspicious: &Vec<(String, usize)>) -> (r: Option<String>)
        ensures
            ({
                let listed = filtered_ips(pair_view(top_suspicious@), self.input@);
                if self.selected is Some && self.selected->0 < listed.len() {
                    r matches Some(ip) && ip@ == listed[self.selected->0 as int].0
                } else {
                    r is None
                }
            }),
    {
        match self.selected {
            Some(i) => {
                let listed = filter_suspicious(top_suspicious, self.input.as_slice());
                if i < listed.len() {
                    Some(string_of(chars_of(listed[i].0.as_str()).as_slice()))
                } else {
                    None
                }
            },
            None => None,
        }
    }

    /// The recent requests of `ip`, with their suspicious fragments marked.
    pub fn get_highlighted_log_lines(log_data: &LogData, ip: &str) -> (r: Vec<String>)
        requires
            log_data.wf(),
        ensures
            r@.map_values(|l: String| l@) == ip_log_lines(log_data, ip@),
    {
        let lines = log_data.get_last_requests(ip);
        let ghost src = if has_key(log_data.by_ip.seq(), ip@) {
            value_of(log_data.by_ip.seq(), ip@).last_requests@
        } else {
            Seq::<String>::empty()
        };
        assert(lines@ =~= src);
        let mut r: Vec<String> = Vec::new();
        let mut i: usize = 0;
        while i < lines.len()
            invariant
                lines@ == src,
                i <= lines@.len(),
                r@.map_values(|l: String| l@) == src.take(i as int).map_values(|l: String| highlighted(l@, highlight_pairs())),
            decreases lines.len() - i,
        {
            let ghost prev = r@;
            let h = highlight_suspicious_patterns(lines[i].as_str());
            r.push(h);
            assert(r@.map_values(|l: String| l@) =~= prev.map_values(|l: String| l@).push(h@));
            assert(src.take(i as int + 1).map_values(|l: String| highlighted(l@, highlight_pairs())) =~=
                src.take(i as int).map_values(|l: String| highlighted(l@, highlight_pairs())).push(highlighted(src[i as int]@, highlight_pairs())));
            assert(r@.map_values(|l: String| l@) =~= src.take(i as int + 1).map_values(|l: String| highlighted(l@, highlight_pairs())));
            i += 1;
        }
        assert(src.take(i as int) =~= src);
        r
    }
}

impl Default for SecurityTab {
    /// The tab as `SecurityTab::new` makes it.
    fn default() -> (r: Self)
        ensures
            r@ == (SecurityModel { selected: Some(0), detail_selected: None, show_log_detail: false, input: Seq::empty(), active_panel: 0 }),
    {
        SecurityTab::new()
    }
}

} // verus!
