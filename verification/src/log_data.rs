use vstd::prelude::*;
use std::collections::HashMap;
use std::time::SystemTime;
use vstd::std_specs::iter::IteratorSpec;
use crate::clock::{system_now, is_recent, updated_recently};
use crate::table::{Table, lemma_update_is_upsert, lemma_upsert_twice, lemma_key_index, keys_distinct, has_key, key_index, value_of, count_of, counts_bounded, upsert, bump, lemma_upsert_distinct, law_bump_counts};
use crate::sorting::{sort_desc, first_n, indexed, rekey, sort_indices_desc, sort_pairs_desc, sort_codes_desc, lemma_sort_desc_len, lemma_sort_rekey, law_sort_desc_sorted_permutation};
use crate::text::{chars_of, to_lowercase, lowercase, contains, contains_sub};

verus! {

broadcast use vstd::std_specs::hash::group_hash_axioms;

/// The character sequences of a vector of strings.
pub open spec fn strs(v: Seq<String>) -> Seq<Seq<char>> {
    v.map_values(|s: String| s@)
}

/// The character sequence of an optional string.
pub open spec fn opt_str(o: Option<String>) -> Option<Seq<char>> {
    match o {
        Some(s) => Some(s@),
        None => None,
    }
}

/// Top entries: keys with references to their statistics.
pub type TopEntries<'a> = Vec<(String, &'a LogEntry)>;

/// Parameters of one request to be added to the statistics.
#[derive(Debug)]
pub struct LogEntryParams {
    /// IP address of the client.
    pub ip: String,
    /// URL path of the request.
    pub url: String,
    /// The whole log line.
    pub log_line: String,
    /// Unix timestamp of the request.
    pub timestamp: i64,
    /// HTTP method (GET, POST, ...).
    pub request_type: String,
    /// Domain of the request.
    pub request_domain: String,
    /// HTTP status code.
    pub status_code: Option<u16>,
    /// Response size in bytes.
    pub response_size: Option<u64>,
    /// Response time in seconds, as the bit pattern of an `f64` (`f64::to_bits`).
    pub response_time: Option<u64>,
    /// User-Agent of the client.
    pub user_agent: Option<String>,
}

/// Statistics of the requests of one IP address or one URL.
#[derive(Debug)]
pub struct LogEntry {
    pub count: usize,
    pub last_update: SystemTime,
    /// The most recent log lines first, at most 10.
    pub last_requests: Vec<String>,
    pub request_type: String,
    pub request_domain: String,
    pub full_url: String,
    pub status_codes: HashMap<u16, usize>,
    /// The most recent response sizes last, at most 100.
    pub response_sizes: Vec<u64>,
    /// The most recent response times last (bit patterns of `f64`), at most 100.
    pub response_times: Vec<u64>,
    pub user_agents: Table<usize>,
    pub suspicious_patterns: Vec<String>,
    pub is_bot: bool,
    pub bot_type: Option<String>,
}

/// What a `LogEntry` holds, as plain values.
pub struct EntryModel {
    pub count: nat,
    pub last_update: SystemTime,
    pub last_requests: Seq<Seq<char>>,
    pub request_type: Seq<char>,
    pub request_domain: Seq<char>,
    pub full_url: Seq<char>,
    pub status_codes: Map<u16, usize>,
    pub response_sizes: Seq<u64>,
    pub response_times: Seq<u64>,
    pub user_agents: Seq<(Seq<char>, usize)>,
    pub suspicious_patterns: Seq<Seq<char>>,
    pub is_bot: bool,
    pub bot_type: Option<Seq<char>>,
}

impl View for LogEntry {
    type V = EntryModel;

    open spec fn view(&self) -> EntryModel {
        EntryModel {
            count: self.count as nat,
            last_update: self.last_update,
            last_requests: strs(self.last_requests@),
            request_type: self.request_type@,
            request_domain: self.request_domain@,
            full_url: self.full_url@,
            status_codes: self.status_codes@,
            response_sizes: self.response_sizes@,
            response_times: self.response_times@,
            user_agents: self.user_agents.seq(),
            suspicious_patterns: strs(self.suspicious_patterns@),
            is_bot: self.is_bot,
            bot_type: opt_str(self.bot_type),
        }
    }
}

/// The entries of a table, as plain values.
pub open spec fn models(s: Seq<(Seq<char>, LogEntry)>) -> Seq<(Seq<char>, EntryModel)> {
    s.map_values(|p: (Seq<char>, LogEntry)| (p.0, p.1@))
}

/// The most recent log lines after `line` arrives: newest first, the oldest dropped beyond 10.
pub open spec fn push_recent(v: Seq<Seq<char>>, line: Seq<char>) -> Seq<Seq<char>> {
    let t = seq![line] + v;
    if t.len() > 10 { t.drop_last() } else { t }
}

/// A sample list after `x` arrives: appended, the oldest dropped beyond 100.
pub open spec fn push_capped(v: Seq<u64>, x: Option<u64>) -> Seq<u64> {
    match x {
        Some(x) => {
            let t = v.push(x);
            if t.len() > 100 { t.skip(1) } else { t }
        },
        None => v,
    }
}

/// The count of `c` in `m` plus one.
pub open spec fn code_bumped(m: Map<u16, usize>, c: u16) -> Map<u16, usize> {
    m.insert(c, (if m.contains_key(c) { m[c] + 1 } else { 1 }) as usize)
}

/// The status-code counts after an optional code arrives.
pub open spec fn count_code(m: Map<u16, usize>, c: Option<u16>) -> Map<u16, usize> {
    match c {
        Some(c) => code_bumped(m, c),
        None => m,
    }
}

/// The counts after an optional key arrives.
pub open spec fn count_opt(s: Seq<(Seq<char>, usize)>, k: Option<Seq<char>>) -> Seq<(Seq<char>, usize)> {
    match k {
        Some(k) => bump(s, k),
        None => s,
    }
}

/// The statistics of a key seen for the first time, before its first request is counted.
pub open spec fn fresh_model(p: LogEntryParams, now: SystemTime, full_url: Seq<char>) -> EntryModel {
    EntryModel {
        count: 0,
        last_update: now,
        last_requests: Seq::empty(),
        request_type: p.request_type@,
        request_domain: p.request_domain@,
        full_url: full_url,
        status_codes: Map::empty(),
        response_sizes: Seq::empty(),
        response_times: Seq::empty(),
        user_agents: Seq::empty(),
        suspicious_patterns: Seq::empty(),
        is_bot: false,
        bot_type: None,
    }
}

/// The statistics after one more request `p` at time `now` (`full_url`, when given, replaces the stored URL).
pub open spec fn recorded(e: EntryModel, p: LogEntryParams, now: SystemTime, full_url: Option<Seq<char>>) -> EntryModel {
    EntryModel {
        count: e.count + 1,
        last_update: now,
        last_requests: push_recent(e.last_requests, p.log_line@),
        full_url: match full_url {
            Some(u) => u,
            None => e.full_url,
        },
        status_codes: count_code(e.status_codes, p.status_code),
        response_sizes: push_capped(e.response_sizes, p.response_size),
        response_times: push_capped(e.response_times, p.response_time),
        user_agents: count_opt(e.user_agents, opt_str(p.user_agent)),
        ..e
    }
}

/// The statistics of `key` after request `p`: those already stored, or fresh ones, with `p` counted.
pub open spec fn entry_after(
    s: Seq<(Seq<char>, EntryModel)>,
    key: Seq<char>,
    p: LogEntryParams,
    now: SystemTime,
    full_url: Option<Seq<char>>,
) -> EntryModel {
    let base = if has_key(s, key) {
        value_of(s, key)
    } else {
        fresh_model(p, now, if full_url is Some { full_url->0 } else { Seq::empty() })
    };
    recorded(base, p, now, full_url)
}

/// Every count of a status-code map is at most `b`.
pub open spec fn map_bounded<K>(m: Map<K, usize>, b: nat) -> bool {
    forall|k: K| m.contains_key(k) ==> m[k] <= b
}

/// The counters of an entry are at most `b`, and its user-agent table is well formed.
pub open spec fn entry_bounded(e: EntryModel, b: nat) -> bool {
    &&& e.count <= b
    &&& keys_distinct(e.user_agents)
    &&& counts_bounded(e.user_agents, b)
    &&& map_bounded(e.status_codes, b)
}

/// Every entry of a table is bounded by `b`.
pub open spec fn entries_bounded(s: Seq<(Seq<char>, EntryModel)>, b: nat) -> bool {
    forall|i: int| 0 <= i < s.len() ==> entry_bounded(#[trigger] s[i].1, b)
}

/// The sum of the request counts of a table.
pub open spec fn total_count(s: Seq<(Seq<char>, EntryModel)>) -> nat
    decreases s.len(),
{
    if s.len() == 0 { 0 } else { total_count(s.drop_last()) + s.last().1.count }
}

pub proof fn lemma_total_count_update(s: Seq<(Seq<char>, EntryModel)>, i: int, x: (Seq<char>, EntryModel))
    requires
        0 <= i < s.len(),
    ensures
        total_count(s.update(i, x)) + s[i].1.count == total_count(s) + x.1.count,
    decreases s.len(),
{
    if i < s.len() - 1 {
        lemma_total_count_update(s.drop_last(), i, x);
        assert(s.update(i, x).drop_last() =~= s.drop_last().update(i, x));
    } else {
        assert(s.update(i, x).drop_last() =~= s.drop_last());
    }
}

impl LogEntry {
    /// Fresh statistics for a key seen for the first time.
    fn fresh(p: &LogEntryParams, now: SystemTime, full_url: String) -> (r: LogEntry)
        ensures
            r@ == fresh_model(*p, now, full_url@),
            r.user_agents.wf(),
    {
        let r = LogEntry {
            count: 0,
            last_update: now,
            last_requests: Vec::new(),
            request_type: p.request_type.clone(),
            request_domain: p.request_domain.clone(),
            full_url,
            status_codes: HashMap::new(),
            response_sizes: Vec::new(),
            response_times: Vec::new(),
            user_agents: Table::new(),
            suspicious_patterns: Vec::new(),
            is_bot: false,
            bot_type: None,
        };
        assert(r@.last_requests =~= Seq::<Seq<char>>::empty());
        assert(r@.suspicious_patterns =~= Seq::<Seq<char>>::empty());
        assert(r@.status_codes =~= Map::<u16, usize>::empty());
        r
    }

    /// Counts one more request `p` at time `now`.
    fn record(&mut self, p: &LogEntryParams, now: SystemTime, full_url: Option<String>, Ghost(b): Ghost<nat>)
        requires
            entry_bounded(old(self)@, b),
            b + 1 <= usize::MAX,
            old(self).user_agents.wf(),
        ensures
            final(self)@ == recorded(old(self)@, *p, now, opt_str(full_url)),
            entry_bounded(final(self)@, b + 1),
            final(self).user_agents.wf(),
    {
        self.count = self.count + 1;
        self.last_update = now;
        if let Some(u) = full_url {
            self.full_url = u;
        }
        let ghost lr = strs(self.last_requests@);
        self.last_requests.insert(0, p.log_line.clone());
        assert(strs(self.last_requests@) =~= seq![p.log_line@] + lr);
        if self.last_requests.len() > 10 {
            self.last_requests.pop();
            assert(strs(self.last_requests@) =~= (seq![p.log_line@] + lr).drop_last());
        }
        if let Some(code) = p.status_code {
            let c: usize = match self.status_codes.get(&code) {
                Some(v) => *v,
                None => 0,
            };
            self.status_codes.insert(code, c + 1);
            assert(self.status_codes@ =~= code_bumped(old(self).status_codes@, code));
        }
        if let Some(size) = p.response_size {
            let ghost v0 = self.response_sizes@;
            self.response_sizes.push(size);
            if self.response_sizes.len() > 100 {
                self.response_sizes.remove(0);
                assert(self.response_sizes@ =~= v0.push(size).skip(1));
            }
        }
        if let Some(t) = p.response_time {
            let ghost v0 = self.response_times@;
            self.response_times.push(t);
            if self.response_times.len() > 100 {
                self.response_times.remove(0);
                assert(self.response_times@ =~= v0.push(t).skip(1));
            }
        }
        if let Some(ua) = &p.user_agent {
            proof {
                law_bump_counts_bound(self.user_agents.seq(), ua@, b);
            }
            self.user_agents.increment(ua.as_str());
        }
        assert(map_bounded(self.status_codes@, b + 1));
    }
}

/// Counting one more occurrence keeps every count within a bound raised by one.
pub proof fn law_bump_counts_bound(s: Seq<(Seq<char>, usize)>, k: Seq<char>, b: nat)
    requires
        keys_distinct(s),
        counts_bounded(s, b),
    ensures
        count_of(s, k) <= b,
        keys_distinct(bump(s, k)),
        counts_bounded(bump(s, k), b + 1),
{
    if has_key(s, k) {
        assert(s[key_index(s, k)].1 <= b);
    }
    lemma_upsert_distinct(s, k, (count_of(s, k) + 1) as usize);
    let t = bump(s, k);
    assert forall|i: int| 0 <= i < t.len() implies (#[trigger] t[i]).1 <= b + 1 by {
        if has_key(s, k) {
            if i != key_index(s, k) {
                assert(t[i] == s[i]);
            }
        } else if i < s.len() {
            assert(t[i] == s[i]);
        }
    }
}

/// The statistics of a table after the key is looked up by position.
pub proof fn lemma_models_key(s: Seq<(Seq<char>, LogEntry)>, k: Seq<char>)
    requires
        keys_distinct(s),
    ensures
        keys_distinct(models(s)),
        has_key(models(s), k) <==> has_key(s, k),
        has_key(s, k) ==> key_index(models(s), k) == key_index(s, k),
        has_key(s, k) ==> value_of(models(s), k) == value_of(s, k)@,
{
    let m = models(s);
    assert forall|i: int, j: int| 0 <= i < m.len() && 0 <= j < m.len() && i != j implies m[i].0 != m[j].0 by {
        assert(m[i].0 == s[i].0 && m[j].0 == s[j].0);
    }
    if has_key(s, k) {
        let i = key_index(s, k);
        assert(m[i].0 == k);
    }
    if has_key(m, k) {
        let i = key_index(m, k);
        assert(s[i].0 == k);
    }
}

/// Counters of one kind (per IP, per URL, per pattern, ...) with their well-formedness.
pub open spec fn counter_ok(t: Table<usize>, b: nat) -> bool {
    t.wf() && counts_bounded(t.seq(), b)
}

/// Security findings: per-IP counts of suspicious requests, per-pattern counts of
/// attack signatures, and per-IP counts of rate-limit violations.
#[derive(Debug)]
pub struct SecurityData {
    pub suspicious_ips: Table<usize>,
    pub attack_patterns: Table<usize>,
    pub rate_limit_violations: Table<usize>,
}

/// Error findings: counts of error status codes, and of failing URLs, IPs and error classes.
#[derive(Debug)]
pub struct ErrorData {
    pub error_codes: HashMap<u16, usize>,
    pub error_urls: Table<usize>,
    pub error_ips: Table<usize>,
    pub error_patterns: Table<usize>,
}

/// Bot findings: counts per bot IP, bot kind, bot User-Agent and URL visited by bots.
#[derive(Debug)]
pub struct BotData {
    pub bot_ips: Table<usize>,
    pub bot_types: Table<usize>,
    pub bot_user_agents: Table<usize>,
    pub bot_urls: Table<usize>,
}

/// Aggregated statistics of the analyzed log.
#[derive(Debug)]
pub struct LogData {
    pub by_ip: Table<LogEntry>,
    pub by_url: Table<LogEntry>,
    pub total_requests: usize,
    pub requests_per_interval: HashMap<i64, usize>,
    pub security: SecurityData,
    pub errors: ErrorData,
    pub bots: BotData,
    pub enable_security: bool,
    pub enable_performance: bool,
    pub enable_errors: bool,
    pub enable_bots: bool,
    pub enable_sparkline: bool,
    pub enable_heatmap: bool,
    /// A bound on every counter (and on the request total).
    pub counter_ceiling: usize,
}

/// The most one request can raise a counter by: the length of the attack
/// signature list (a request may match every signature).
pub open spec fn max_step() -> nat {
    135
}

/// The most a request that matches the signatures `d` can raise a counter by: one
/// per matched signature when the security checks are on, and at least 2 (the
/// rate-limit counters can rise twice).
pub open spec fn step_of(d: Seq<Seq<char>>, security: bool) -> nat {
    if security && d.len() > 2 { d.len() } else { 2 }
}

impl LogData {
    /// Tables are well formed, every counter is within the bound, and each request
    /// is counted exactly once per IP and once per URL.
    pub open spec fn wf(&self) -> bool {
        let b = self.counter_ceiling as nat;
        &&& self.by_ip.wf()
        &&& self.by_url.wf()
        &&& entries_bounded(models(self.by_ip.seq()), b)
        &&& entries_bounded(models(self.by_url.seq()), b)
        &&& total_count(models(self.by_ip.seq())) == self.total_requests
        &&& total_count(models(self.by_url.seq())) == self.total_requests
        &&& counter_ok(self.security.suspicious_ips, b)
        &&& counter_ok(self.security.attack_patterns, b)
        &&& counter_ok(self.security.rate_limit_violations, b)
        &&& counter_ok(self.errors.error_urls, b)
        &&& counter_ok(self.errors.error_ips, b)
        &&& counter_ok(self.errors.error_patterns, b)
        &&& counter_ok(self.bots.bot_ips, b)
        &&& counter_ok(self.bots.bot_types, b)
        &&& counter_ok(self.bots.bot_user_agents, b)
        &&& counter_ok(self.bots.bot_urls, b)
        &&& map_bounded(self.errors.error_codes@, b)
        &&& map_bounded(self.requests_per_interval@, b)
        &&& self.total_requests <= self.counter_ceiling
    }

    /// One more request cannot push a counter past `usize::MAX`.
    pub open spec fn has_room(&self) -> bool {
        self.counter_ceiling + max_step() <= usize::MAX
    }

    /// Creates empty statistics with the given analyses enabled.
    pub fn with_enabled_tabs(
        enable_security: bool,
        enable_performance: bool,
        enable_errors: bool,
        enable_bots: bool,
        enable_sparkline: bool,
        enable_heatmap: bool,
    ) -> (r: Self)
        ensures
            r.wf(),
            r.total_requests == 0,
            r.by_ip.seq().len() == 0,
            r.by_url.seq().len() == 0,
            r.requests_per_interval@ == Map::<i64, usize>::empty(),
            r.security.suspicious_ips.seq().len() == 0,
            r.security.attack_patterns.seq().len() == 0,
            r.security.rate_limit_violations.seq().len() == 0,
            r.errors.error_codes@ == Map::<u16, usize>::empty(),
            r.errors.error_urls.seq().len() == 0,
            r.errors.error_ips.seq().len() == 0,
            r.errors.error_patterns.seq().len() == 0,
            r.bots.bot_ips.seq().len() == 0,
            r.bots.bot_types.seq().len() == 0,
            r.bots.bot_user_agents.seq().len() == 0,
            r.bots.bot_urls.seq().len() == 0,
            r.enable_security == enable_security,
            r.enable_performance == enable_performance,
            r.enable_errors == enable_errors,
            r.enable_bots == enable_bots,
            r.enable_sparkline == enable_sparkline,
            r.enable_heatmap == enable_heatmap,
            r.counter_ceiling == 0,
    {
        let r = LogData {
            by_ip: Table::new(),
            by_url: Table::new(),
            total_requests: 0,
            requests_per_interval: HashMap::new(),
            security: SecurityData {
                suspicious_ips: Table::new(),
                attack_patterns: Table::new(),
                rate_limit_violations: Table::new(),
            },
            errors: ErrorData {
                error_codes: HashMap::new(),
                error_urls: Table::new(),
                error_ips: Table::new(),
                error_patterns: Table::new(),
            },
            bots: BotData {
                bot_ips: Table::new(),
                bot_types: Table::new(),
                bot_user_agents: Table::new(),
                bot_urls: Table::new(),
            },
            enable_security,
            enable_performance,
            enable_errors,
            enable_bots,
            enable_sparkline,
            enable_heatmap,
            counter_ceiling: 0,
        };
        assert(models(r.by_ip.seq()) =~= Seq::empty());
        assert(models(r.by_url.seq()) =~= Seq::empty());
        r
    }
}

/// Counts request `p` under `key`, creating the key's statistics when needed.
fn record_in(
    table: &mut Table<LogEntry>,
    key: &String,
    p: &LogEntryParams,
    now: SystemTime,
    full_url: Option<String>,
    Ghost(b): Ghost<nat>,
)
    requires
        old(table).wf(),
        entries_bounded(models(old(table).seq()), b),
        b + 1 <= usize::MAX,
    ensures
        final(table).wf(),
        models(final(table).seq()) == upsert(
            models(old(table).seq()),
            key@,
            entry_after(models(old(table).seq()), key@, *p, now, opt_str(full_url)),
        ),
        entries_bounded(models(final(table).seq()), b + 1),
        total_count(models(final(table).seq())) == total_count(models(old(table).seq())) + 1,
{
    let ghost s0 = table.seq();
    let ghost m0 = models(s0);
    let ghost fu = opt_str(full_url);
    proof { lemma_models_key(s0, key@); }
    match table.find(key.as_str()) {
        Some(i) => {
            proof {
                assert(entry_bounded(m0[i as int].1, b));
                assert(m0[i as int].1 == s0[i as int].1@);
            }
            let e = table.value_at_mut(i);
            e.record(p, now, full_url, Ghost(b));
            proof {
                let m1 = models(table.seq());
                assert(m1 =~= m0.update(i as int, (key@, recorded(m0[i as int].1, *p, now, fu))));
                lemma_total_count_update(m0, i as int, (key@, recorded(m0[i as int].1, *p, now, fu)));
                assert forall|j: int| 0 <= j < m1.len() implies entry_bounded(#[trigger] m1[j].1, b + 1) by {
                    if j != i {
                        assert(m1[j] == m0[j]);
                        assert(entry_bounded(m0[j].1, b));
                    }
                }
            }
        },
        None => {
            let fresh_url = match &full_url {
                Some(u) => u.clone(),
                None => String::new(),
            };
            let mut e = LogEntry::fresh(p, now, fresh_url);
            e.record(p, now, full_url, Ghost(b));
            table.push_new(key.clone(), e);
            proof {
                let m1 = models(table.seq());
                assert(m1 =~= m0.push((key@, e@)));
                assert(m1.drop_last() =~= m0);
                assert forall|j: int| 0 <= j < m1.len() implies entry_bounded(#[trigger] m1[j].1, b + 1) by {
                    if j < m0.len() {
                        assert(m1[j] == m0[j]);
                        assert(entry_bounded(m0[j].1, b));
                    }
                }
            }
        },
    }
}
/// The substrings whose presence in a request (URL or log line, lower-cased) marks it as suspicious; some occur twice, and each occurrence counts.
pub open spec fn attack_signatures() -> Seq<Seq<char>> {
    seq![
        "'"@,
        "union"@,
        "select"@,
        "drop"@,
        "insert"@,
        "update"@,
        "delete"@,
        "exec"@,
        "xp_"@,
        "sqlmap"@,
        "information_schema"@,
        "mysql"@,
        "oracle"@,
        "postgresql"@,
        "sqlite"@,
        "<script>"@,
        "javascript:"@,
        "onload="@,
        "onerror="@,
        "onclick="@,
        "alert("@,
        "document.cookie"@,
        "vbscript:"@,
        "expression("@,
        "eval("@,
        "setTimeout("@,
        "setInterval("@,
        "../"@,
        "..\\"@,
        "/etc/"@,
        "/proc/"@,
        "c:\\"@,
        "windows\\"@,
        "~"@,
        "..%2f"@,
        "..%5c"@,
        "/etc/passwd"@,
        "/etc/shadow"@,
        "/proc/version"@,
        "/proc/cpuinfo"@,
        ";"@,
        "|"@,
        "&"@,
        "`"@,
        "$("@,
        "eval("@,
        "system("@,
        "exec("@,
        "shell_exec("@,
        "passthru("@,
        "proc_open("@,
        "popen("@,
        "curl_exec("@,
        "file_get_contents("@,
        "include("@,
        "require("@,
        "include_once("@,
        "require_once("@,
        "fopen("@,
        "file("@,
        "admin"@,
        "wp-admin"@,
        "phpmyadmin"@,
        "config"@,
        ".env"@,
        "backup"@,
        "test"@,
        "debug"@,
        "login"@,
        "auth"@,
        "administrator"@,
        "root"@,
        "user"@,
        "password"@,
        "dirb"@,
        "gobuster"@,
        "nikto"@,
        "nmap"@,
        "dirbuster"@,
        "wfuzz"@,
        "sqlmap"@,
        "burp"@,
        "wireshark"@,
        "metasploit"@,
        "nmap"@,
        "nikto"@,
        "x-forwarded-for"@,
        "x-real-ip"@,
        "x-forwarded-host"@,
        "x-original-url"@,
        ".php"@,
        ".asp"@,
        ".aspx"@,
        ".jsp"@,
        ".jspx"@,
        ".cgi"@,
        ".pl"@,
        ".py"@,
        ".sh"@,
        "webshell"@,
        "shell"@,
        "cmd"@,
        "command"@,
        "exec"@,
        "robots.txt"@,
        "sitemap.xml"@,
        ".git"@,
        ".svn"@,
        ".htaccess"@,
        "web.config"@,
        "phpinfo"@,
        "info.php"@,
        "test.php"@,
        "debug.php"@,
        "login"@,
        "auth"@,
        "admin"@,
        "user"@,
        "password"@,
        "passwd"@,
        "wp-login"@,
        "null"@,
        "undefined"@,
        "NaN"@,
        "infinity"@,
        "true"@,
        "false"@,
        "0x"@,
        "0b"@,
        "0o"@,
        "\\x"@,
        "\\u"@,
        "\\n"@,
        "\\r"@,
        "\\t"@,
    ]
}

/// The attack signatures, in the order they are checked.
pub fn attack_signature_list() -> (r: Vec<&'static str>)
    ensures
        r@.map_values(|s: &str| s@) == attack_signatures(),
{
    let r = vec![
        "'",
        "union",
        "select",
        "drop",
        "insert",
        "update",
        "delete",
        "exec",
        "xp_",
        "sqlmap",
        "information_schema",
        "mysql",
        "oracle",
        "postgresql",
        "sqlite",
        "<script>",
        "javascript:",
        "onload=",
        "onerror=",
        "onclick=",
        "alert(",
        "document.cookie",
        "vbscript:",
        "expression(",
        "eval(",
        "setTimeout(",
        "setInterval(",
        "../",
        "..\\",
        "/etc/",
        "/proc/",
        "c:\\",
        "windows\\",
        "~",
        "..%2f",
        "..%5c",
        "/etc/passwd",
        "/etc/shadow",
        "/proc/version",
        "/proc/cpuinfo",
        ";",
        "|",
        "&",
        "`",
        "$(",
        "eval(",
        "system(",
        "exec(",
        "shell_exec(",
        "passthru(",
        "proc_open(",
        "popen(",
        "curl_exec(",
        "file_get_contents(",
        "include(",
        "require(",
        "include_once(",
        "require_once(",
        "fopen(",
        "file(",
        "admin",
        "wp-admin",
        "phpmyadmin",
        "config",
        ".env",
        "backup",
        "test",
        "debug",
        "login",
        "auth",
        "administrator",
        "root",
        "user",
        "password",
        "dirb",
        "gobuster",
        "nikto",
        "nmap",
        "dirbuster",
        "wfuzz",
        "sqlmap",
        "burp",
        "wireshark",
        "metasploit",
        "nmap",
        "nikto",
        "x-forwarded-for",
        "x-real-ip",
        "x-forwarded-host",
        "x-original-url",
        ".php",
        ".asp",
        ".aspx",
        ".jsp",
        ".jspx",
        ".cgi",
        ".pl",
        ".py",
        ".sh",
        "webshell",
        "shell",
        "cmd",
        "command",
        "exec",
        "robots.txt",
        "sitemap.xml",
        ".git",
        ".svn",
        ".htaccess",
        "web.config",
        "phpinfo",
        "info.php",
        "test.php",
        "debug.php",
        "login",
        "auth",
        "admin",
        "user",
        "password",
        "passwd",
        "wp-login",
        "null",
        "undefined",
        "NaN",
        "infinity",
        "true",
        "false",
        "0x",
        "0b",
        "0o",
        "\\x",
        "\\u",
        "\\n",
        "\\r",
        "\\t",
    ];
    assert(r@.map_values(|s: &str| s@) =~= attack_signatures());
    r
}

/// URL fragments of authentication endpoints, used to detect brute-force attempts.
pub open spec fn auth_endpoints() -> Seq<Seq<char>> {
    seq![
        "/login"@,
        "/auth"@,
        "/admin"@,
        "/wp-admin"@,
        "/wp-login"@,
        "/administrator"@,
    ]
}

/// The authentication endpoint fragments, in order.
pub fn auth_endpoint_list() -> (r: Vec<&'static str>)
    ensures
        r@.map_values(|s: &str| s@) == auth_endpoints(),
{
    let r = vec![
        "/login",
        "/auth",
        "/admin",
        "/wp-admin",
        "/wp-login",
        "/administrator",
    ];
    assert(r@.map_values(|s: &str| s@) =~= auth_endpoints());
    r
}

/// Substrings of a lower-cased User-Agent that identify a bot, in priority order: the
/// named crawlers before the generic words, so that a bot is classified by its type.
pub open spec fn bot_indicators() -> Seq<Seq<char>> {
    seq![
        "googlebot"@,
        "bingbot"@,
        "slurp"@,
        "teoma"@,
        "ia_archiver"@,
        "rogerbot"@,
        "exabot"@,
        "mj12bot"@,
        "bot"@,
        "crawler"@,
        "spider"@,
        "scraper"@,
    ]
}

/// The bot indicators, in priority order.
pub fn bot_indicator_list() -> (r: Vec<&'static str>)
    ensures
        r@.map_values(|s: &str| s@) == bot_indicators(),
{
    let r = vec![
        "googlebot",
        "bingbot",
        "slurp",
        "teoma",
        "ia_archiver",
        "rogerbot",
        "exabot",
        "mj12bot",
        "bot",
        "crawler",
        "spider",
        "scraper",
    ];
    assert(r@.map_values(|s: &str| s@) =~= bot_indicators());
    r
}

/// The signatures of `sigs` that occur in `url_l` or `line_l`, in order, with repetitions.
pub open spec fn detected_in(sigs: Seq<Seq<char>>, url_l: Seq<char>, line_l: Seq<char>) -> Seq<Seq<char>>
    decreases sigs.len(),
{
    if sigs.len() == 0 {
        Seq::empty()
    } else {
        let d = detected_in(sigs.drop_last(), url_l, line_l);
        if contains_sub(url_l, sigs.last()) || contains_sub(line_l, sigs.last()) {
            d.push(sigs.last())
        } else {
            d
        }
    }
}

/// The attack signatures found in request `p` (in its lower-cased URL or log line).
pub open spec fn detected_signatures(p: LogEntryParams) -> Seq<Seq<char>> {
    detected_in(attack_signatures(), lowercase(p.url@), lowercase(p.log_line@))
}

/// The counts after one more occurrence of each of `ks`, in order.
pub open spec fn bump_all(s: Seq<(Seq<char>, usize)>, ks: Seq<Seq<char>>) -> Seq<(Seq<char>, usize)>
    decreases ks.len(),
{
    if ks.len() == 0 {
        s
    } else {
        bump(bump_all(s, ks.drop_last()), ks.last())
    }
}

/// `v` extended with each of `ks` not already present, in order.
pub open spec fn add_missing(v: Seq<Seq<char>>, ks: Seq<Seq<char>>) -> Seq<Seq<char>>
    decreases ks.len(),
{
    if ks.len() == 0 {
        v
    } else {
        let w = add_missing(v, ks.drop_last());
        if w.contains(ks.last()) { w } else { w.push(ks.last()) }
    }
}

/// Adding the missing signatures to a list of an IP's signatures keeps it free of
/// duplicates, keeps the old list as its beginning in the same order, and leaves it
/// holding exactly the old signatures and the new ones.
pub proof fn law_add_missing_keeps_distinct(v: Seq<Seq<char>>, ks: Seq<Seq<char>>)
    requires
        v.no_duplicates(),
    ensures
        add_missing(v, ks).no_duplicates(),
        add_missing(v, ks).len() >= v.len(),
        add_missing(v, ks).take(v.len() as int) == v,
        forall|x: Seq<char>| add_missing(v, ks).contains(x) <==> (v.contains(x) || ks.contains(x)),
    decreases ks.len(),
{
    if ks.len() > 0 {
        let w = add_missing(v, ks.drop_last());
        law_add_missing_keeps_distinct(v, ks.drop_last());
        let r = add_missing(v, ks);
        if !w.contains(ks.last()) {
            assert(r == w.push(ks.last()));
            assert(r.take(v.len() as int) =~= w.take(v.len() as int));
            assert forall|i: int, j: int| 0 <= i < r.len() && 0 <= j < r.len() && i != j implies r[i] != r[j] by {
                if i == w.len() as int {
                    assert(w.contains(r[j]));
                } else if j == w.len() as int {
                    assert(w.contains(r[i]));
                }
            }
        }
        assert forall|x: Seq<char>| r.contains(x) <==> (v.contains(x) || ks.contains(x)) by {
            if ks.contains(x) && !ks.drop_last().contains(x) {
                let k = choose|k: int| 0 <= k < ks.len() && ks[k] == x;
                if k < ks.len() - 1 {
                    assert(ks.drop_last()[k] == x);
                }
                if !w.contains(ks.last()) {
                    assert(r[w.len() as int] == x);
                }
            }
            if ks.drop_last().contains(x) {
                let k = choose|k: int| 0 <= k < ks.drop_last().len() && ks.drop_last()[k] == x;
                assert(ks[k] == x);
            }
            if r.contains(x) && !w.contains(x) {
                assert(x == ks.last());
                assert(ks[ks.len() - 1] == x);
            }
            if w.contains(x) && !w.contains(ks.last()) {
                let k = choose|k: int| 0 <= k < w.len() && w[k] == x;
                assert(r[k] == x);
            }
        }
    }
}

/// One more occurrence of `k` when `c` holds.
pub open spec fn bump_if(s: Seq<(Seq<char>, usize)>, k: Seq<char>, c: bool) -> Seq<(Seq<char>, usize)> {
    if c { bump(s, k) } else { s }
}

/// Some pattern of `pats` occurs in `text`.
pub open spec fn mentions_any(text: Seq<char>, pats: Seq<Seq<char>>) -> bool {
    exists|i: int| 0 <= i < pats.len() && contains_sub(text, #[trigger] pats[i])
}

/// The number of `lines` that mention an authentication endpoint.
pub open spec fn auth_hits(lines: Seq<Seq<char>>) -> nat
    decreases lines.len(),
{
    if lines.len() == 0 {
        0
    } else {
        auth_hits(lines.drop_last()) + if mentions_any(lines.last(), auth_endpoints()) { 1nat } else { 0nat }
    }
}

/// The rate-limit violations after a request to `url` whose IP statistics are now `e`:
/// one for more than 100 requests with the last one within the minute before `current`,
/// one more for a request to an authentication endpoint with more than 10 recent ones.
pub open spec fn rate_after(
    s: Seq<(Seq<char>, usize)>,
    ip: Seq<char>,
    url: Seq<char>,
    e: EntryModel,
    current: SystemTime,
) -> Seq<(Seq<char>, usize)> {
    let s1 = bump_if(s, ip, e.count > 100 && updated_recently(e.last_update, current));
    bump_if(s1, ip, mentions_any(url, auth_endpoints()) && auth_hits(e.last_requests) > 10)
}

/// The first pattern of `pats` occurring in `text`, if any.
pub open spec fn first_found(pats: Seq<Seq<char>>, text: Seq<char>) -> Option<Seq<char>>
    decreases pats.len(),
{
    if pats.len() == 0 {
        None
    } else if contains_sub(text, pats[0]) {
        Some(pats[0])
    } else {
        first_found(pats.skip(1), text)
    }
}

/// The kind of bot request `p` comes from: the first bot indicator in its lower-cased User-Agent.
pub open spec fn bot_kind(p: LogEntryParams) -> Option<Seq<char>> {
    match p.user_agent {
        Some(ua) => first_found(bot_indicators(), lowercase(ua@)),
        None => None,
    }
}

/// The class of an error status code.
pub open spec fn error_class(code: u16) -> Seq<char> {
    if 400 <= code <= 499 {
        "Client Error"@
    } else if 500 <= code <= 599 {
        "Server Error"@
    } else {
        "Other Error"@
    }
}

/// The request counts per timestamp after one more request at `ts`.
pub open spec fn interval_bumped(m: Map<i64, usize>, ts: i64) -> Map<i64, usize> {
    m.insert(ts, (if m.contains_key(ts) { m[ts] + 1 } else { 1 }) as usize)
}

/// The statistics of the request's IP after the request is added.
pub open spec fn ip_entry_after(o: LogData, p: LogEntryParams, now: SystemTime) -> EntryModel {
    let e1 = entry_after(models(o.by_ip.seq()), p.ip@, p, now, None);
    let e2 = if o.enable_security {
        EntryModel { suspicious_patterns: add_missing(e1.suspicious_patterns, detected_signatures(p)), ..e1 }
    } else {
        e1
    };
    if o.enable_bots && bot_kind(p) is Some {
        EntryModel { is_bot: true, bot_type: bot_kind(p), ..e2 }
    } else {
        e2
    }
}

/// `n` is `o` after adding request `p`, with the IP statistics stamped `now` and the
/// rate-limit check made at `current`.
pub open spec fn added(o: LogData, n: LogData, p: LogEntryParams, now: SystemTime, current: SystemTime) -> bool {
    let ip = p.ip@;
    let url = p.url@;
    let e_ip = ip_entry_after(o, p, now);
    let d = detected_signatures(p);
    let err = o.enable_errors && p.status_code is Some && p.status_code->0 >= 400;
    let bot = o.enable_bots && bot_kind(p) is Some;
    &&& n.total_requests == o.total_requests + 1
    &&& models(n.by_ip.seq()) == upsert(models(o.by_ip.seq()), ip, e_ip)
    &&& models(n.by_url.seq()) == upsert(
        models(o.by_url.seq()),
        url,
        entry_after(models(o.by_url.seq()), url, p, now, Some(url)),
    )
    &&& n.security.suspicious_ips.seq() == bump_if(o.security.suspicious_ips.seq(), ip, o.enable_security && d.len() > 0)
    &&& n.security.attack_patterns.seq() == (if o.enable_security { bump_all(o.security.attack_patterns.seq(), d) } else { o.security.attack_patterns.seq() })
    &&& n.security.rate_limit_violations.seq() == (if o.enable_security {
        rate_after(o.security.rate_limit_violations.seq(), ip, url, e_ip, current)
    } else {
        o.security.rate_limit_violations.seq()
    })
    &&& n.errors.error_codes@ == (if err { code_bumped(o.errors.error_codes@, p.status_code->0) } else { o.errors.error_codes@ })
    &&& n.errors.error_urls.seq() == bump_if(o.errors.error_urls.seq(), url, err)
    &&& n.errors.error_ips.seq() == bump_if(o.errors.error_ips.seq(), ip, err)
    &&& n.errors.error_patterns.seq() == (if err { bump(o.errors.error_patterns.seq(), error_class(p.status_code->0)) } else { o.errors.error_patterns.seq() })
    &&& n.bots.bot_ips.seq() == bump_if(o.bots.bot_ips.seq(), ip, bot)
    &&& n.bots.bot_types.seq() == (if bot { bump(o.bots.bot_types.seq(), bot_kind(p)->0) } else { o.bots.bot_types.seq() })
    &&& n.bots.bot_user_agents.seq() == (if bot { bump(o.bots.bot_user_agents.seq(), p.user_agent->0@) } else { o.bots.bot_user_agents.seq() })
    &&& n.bots.bot_urls.seq() == bump_if(o.bots.bot_urls.seq(), url, bot)
    &&& n.requests_per_interval@ == (if o.enable_sparkline || o.enable_heatmap {
        interval_bumped(o.requests_per_interval@, p.timestamp)
    } else {
        o.requests_per_interval@
    })
    &&& n.enable_security == o.enable_security
    &&& n.enable_performance == o.enable_performance
    &&& n.enable_errors == o.enable_errors
    &&& n.enable_bots == o.enable_bots
    &&& n.enable_sparkline == o.enable_sparkline
    &&& n.enable_heatmap == o.enable_heatmap
}

/// The views of a vector of string slices.
pub open spec fn slice_strs(v: Seq<&str>) -> Seq<Seq<char>> {
    v.map_values(|s: &str| s@)
}

proof fn lemma_detected_len(sigs: Seq<Seq<char>>, url_l: Seq<char>, line_l: Seq<char>)
    ensures
        detected_in(sigs, url_l, line_l).len() <= sigs.len(),
    decreases sigs.len(),
{
    if sigs.len() > 0 {
        lemma_detected_len(sigs.drop_last(), url_l, line_l);
    }
}

proof fn lemma_detected_len_bound(p: LogEntryParams)
    ensures
        detected_signatures(p).len() <= max_step(),
{
    lemma_detected_len(attack_signatures(), lowercase(p.url@), lowercase(p.log_line@));
    assert(attack_signatures().len() == 135);
}

/// The attack signatures found in the lower-cased `url` or `log_line`, in order.
fn detect_signatures(url: &String, log_line: &String) -> (r: Vec<&'static str>)
    ensures
        slice_strs(r@) == detected_in(attack_signatures(), lowercase(url@), lowercase(log_line@)),
        r@.len() <= 135,
{
    let url_l = chars_of(to_lowercase(url.as_str()).as_str());
    let line_l = chars_of(to_lowercase(log_line.as_str()).as_str());
    let sigs = attack_signature_list();
    let ghost sv = attack_signatures();
    let mut r: Vec<&'static str> = Vec::new();
    let mut i: usize = 0;
    while i < sigs.len()
        invariant
            slice_strs(sigs@) == sv,
            i <= sigs@.len(),
            url_l@ == lowercase(url@),
            line_l@ == lowercase(log_line@),
            slice_strs(r@) == detected_in(sv.take(i as int), url_l@, line_l@),
        decreases sigs.len() - i,
    {
        let pc = chars_of(sigs[i]);
        assert(sv.take(i as int + 1).drop_last() =~= sv.take(i as int));
        assert(sv.take(i as int + 1).last() == pc@);
        if contains(url_l.as_slice(), pc.as_slice()) || contains(line_l.as_slice(), pc.as_slice()) {
            r.push(sigs[i]);
            assert(slice_strs(r@) =~= detected_in(sv.take(i as int), url_l@, line_l@).push(pc@));
        }
        i += 1;
    }
    assert(sv.take(i as int) =~= sv);
    proof { lemma_detected_len(sv, url_l@, line_l@); }
    r
}

/// Counts one more occurrence of each of `ks`.
fn bump_each(t: &mut Table<usize>, ks: &Vec<&str>, Ghost(b): Ghost<nat>)
    requires
        old(t).wf(),
        counts_bounded(old(t).seq(), b),
        b + ks@.len() <= usize::MAX,
    ensures
        final(t).wf(),
        final(t).seq() == bump_all(old(t).seq(), slice_strs(ks@)),
        counts_bounded(final(t).seq(), b + ks@.len()),
{
    let ghost kv = slice_strs(ks@);
    let mut i: usize = 0;
    while i < ks.len()
        invariant
            kv == slice_strs(ks@),
            i <= ks@.len(),
            b + ks@.len() <= usize::MAX,
            t.wf(),
            t.seq() == bump_all(old(t).seq(), kv.take(i as int)),
            counts_bounded(t.seq(), (b + i) as nat),
        decreases ks.len() - i,
    {
        proof {
            law_bump_counts_bound(t.seq(), ks@[i as int]@, (b + i) as nat);
            assert(kv.take(i as int + 1).drop_last() =~= kv.take(i as int));
        }
        t.increment(ks[i]);
        i += 1;
    }
    assert(kv.take(i as int) =~= kv);
}

/// Adds each of `ks` not already present to `v`.
fn add_missing_patterns(v: &mut Vec<String>, ks: &Vec<&str>)
    ensures
        strs(final(v)@) == add_missing(strs(old(v)@), slice_strs(ks@)),
{
    let ghost kv = slice_strs(ks@);
    let mut i: usize = 0;
    while i < ks.len()
        invariant
            kv == slice_strs(ks@),
            i <= ks@.len(),
            strs(v@) == add_missing(strs(old(v)@), kv.take(i as int)),
        decreases ks.len() - i,
    {
        assert(kv.take(i as int + 1).drop_last() =~= kv.take(i as int));
        let k = String::from_str(ks[i]);
        let mut found = false;
        let mut j: usize = 0;
        while j < v.len()
            invariant
                j <= v@.len(),
                found <==> exists|m: int| 0 <= m < j && strs(v@)[m] == k@,
            decreases v.len() - j,
        {
            assert(strs(v@)[j as int] == v@[j as int]@);
            if v[j] == k {
                found = true;
            }
            j += 1;
        }
        proof {
            assert(found <==> strs(v@).contains(k@));
        }
        if !found {
            let ghost w = strs(v@);
            v.push(k);
            assert(strs(v@) =~= w.push(k@));
        }
        i += 1;
    }
    assert(kv.take(i as int) =~= kv);
}

/// Whether some pattern of `pats` occurs in `text`.
pub fn mentions_any_exec(text: &[char], pats: &Vec<&str>) -> (r: bool)
    ensures
        r == mentions_any(text@, slice_strs(pats@)),
{
    let ghost pv = slice_strs(pats@);
    let mut i: usize = 0;
    while i < pats.len()
        invariant
            pv == slice_strs(pats@),
            i <= pats@.len(),
            forall|m: int| 0 <= m < i ==> !contains_sub(text@, pv[m]),
        decreases pats.len() - i,
    {
        let pc = chars_of(pats[i]);
        if contains(text, pc.as_slice()) {
            assert(contains_sub(text@, pv[i as int]));
            return true;
        }
        i += 1;
    }
    false
}

/// The number of `lines` mentioning an authentication endpoint.
fn count_auth_hits(lines: &Vec<String>) -> (r: usize)
    ensures
        r == auth_hits(strs(lines@)),
{
    let auth = auth_endpoint_list();
    let ghost lv = strs(lines@);
    let mut n: usize = 0;
    let mut i: usize = 0;
    while i < lines.len()
        invariant
            lv == strs(lines@),
            slice_strs(auth@) == auth_endpoints(),
            i <= lines@.len(),
            n == auth_hits(lv.take(i as int)),
            n <= i,
        decreases lines.len() - i,
    {
        assert(lv.take(i as int + 1).drop_last() =~= lv.take(i as int));
        let lc = chars_of(lines[i].as_str());
        if mentions_any_exec(lc.as_slice(), &auth) {
            n += 1;
        }
        i += 1;
    }
    assert(lv.take(i as int) =~= lv);
    n
}

/// The first pattern of `pats` occurring in `text`, if any.
fn first_found_exec(pats: &Vec<&'static str>, text: &[char]) -> (r: Option<&'static str>)
    ensures
        opt_view(r) == first_found(slice_strs(pats@), text@),
{
    let ghost pv = slice_strs(pats@);
    assert(pv.skip(0) =~= pv);
    let mut i: usize = 0;
    while i < pats.len()
        invariant
            pv == slice_strs(pats@),
            i <= pats@.len(),
            first_found(pv, text@) == first_found(pv.skip(i as int), text@),
        decreases pats.len() - i,
    {
        let pc = chars_of(pats[i]);
        assert(pv.skip(i as int)[0] == pc@);
        if contains(text, pc.as_slice()) {
            return Some(pats[i]);
        }
        assert(pv.skip(i as int).skip(1) =~= pv.skip(i as int + 1));
        i += 1;
    }
    assert(pv.skip(i as int).len() == 0);
    None
}

/// The view of an optional string slice.
pub open spec fn opt_view(o: Option<&str>) -> Option<Seq<char>> {
    match o {
        Some(s) => Some(s@),
        None => None,
    }
}

impl LogData {
    /// Records the security findings of request `p`: the attack signatures it shows are
    /// counted, for its IP and each signature; when the IP's statistics are stored, the
    /// signatures are added to them and the rate-limit checks are made.
    fn update_security_data(&mut self, p: &LogEntryParams, current: SystemTime, Ghost(b): Ghost<nat>) -> (n: usize)
        requires
            old(self).by_ip.wf(),
            counter_ok(old(self).security.suspicious_ips, b),
            counter_ok(old(self).security.attack_patterns, b),
            counter_ok(old(self).security.rate_limit_violations, b),
            b + max_step() <= usize::MAX,
        ensures
            ({
                let m0 = models(old(self).by_ip.seq());
                let e = value_of(m0, p.ip@);
                let d = detected_signatures(*p);
                let e2 = EntryModel { suspicious_patterns: add_missing(e.suspicious_patterns, d), ..e };
                &&& final(self).by_ip.wf()
                &&& final(self).security.suspicious_ips.seq() == bump_if(old(self).security.suspicious_ips.seq(), p.ip@, d.len() > 0)
                &&& final(self).security.attack_patterns.seq() == bump_all(old(self).security.attack_patterns.seq(), d)
                &&& if has_key(old(self).by_ip.seq(), p.ip@) {
                    &&& models(final(self).by_ip.seq()) == upsert(m0, p.ip@, e2)
                    &&& final(self).security.rate_limit_violations.seq() == rate_after(old(self).security.rate_limit_violations.seq(), p.ip@, p.url@, e2, current)
                } else {
                    &&& final(self).by_ip == old(self).by_ip
                    &&& final(self).security.rate_limit_violations == old(self).security.rate_limit_violations
                }
            }),
            counter_ok(final(self).security.suspicious_ips, b + step_of(detected_signatures(*p), true)),
            counter_ok(final(self).security.attack_patterns, b + step_of(detected_signatures(*p), true)),
            counter_ok(final(self).security.rate_limit_violations, b + step_of(detected_signatures(*p), true)),
            n == detected_signatures(*p).len(),
            final(self).by_url == old(self).by_url,
            final(self).total_requests == old(self).total_requests,
            final(self).requests_per_interval == old(self).requests_per_interval,
            final(self).errors == old(self).errors,
            final(self).bots == old(self).bots,
            final(self).enable_security == old(self).enable_security,
            final(self).enable_performance == old(self).enable_performance,
            final(self).enable_errors == old(self).enable_errors,
            final(self).enable_bots == old(self).enable_bots,
            final(self).enable_sparkline == old(self).enable_sparkline,
            final(self).counter_ceiling == old(self).counter_ceiling,
            final(self).enable_heatmap == old(self).enable_heatmap,
    {
        let ghost m0 = models(self.by_ip.seq());
        let ghost s0 = self.by_ip.seq();
        let detected = detect_signatures(&p.url, &p.log_line);
        let ghost d = slice_strs(detected@);
        assert(d == detected_signatures(*p));
        if detected.len() > 0 {
            proof { law_bump_counts_bound(self.security.suspicious_ips.seq(), p.ip@, b); }
            self.security.suspicious_ips.increment(p.ip.as_str());
            bump_each(&mut self.security.attack_patterns, &detected, Ghost(b));
        } else {
            assert(d =~= Seq::<Seq<char>>::empty());
        }
        proof {
            lemma_models_key(s0, p.ip@);
        }
        let i = match self.by_ip.find(p.ip.as_str()) {
            Some(i) => i,
            None => {
                proof {
                    lemma_counter_mono(self.security.suspicious_ips, if d.len() > 0 { b + 1 } else { b }, b + step_of(d, true));
                    lemma_counter_mono(self.security.attack_patterns, b + d.len(), b + step_of(d, true));
                    lemma_counter_mono(self.security.rate_limit_violations, b, b + step_of(d, true));
                }
                return detected.len();
            },
        };
        let ghost e0 = s0[i as int].1;
        {
            let e = self.by_ip.value_at_mut(i);
            add_missing_patterns(&mut e.suspicious_patterns, &detected);
        }
        proof {
            let e2 = EntryModel { suspicious_patterns: add_missing(e0@.suspicious_patterns, d), ..e0@ };
            lemma_update_is_upsert(m0, i as int, e2);
            assert(models(self.by_ip.seq()) =~= m0.update(i as int, (p.ip@, e2)));
            lemma_update_is_upsert(s0, i as int, self.by_ip.seq()[i as int].1);
            assert(self.by_ip.seq() == s0.update(i as int, (s0[i as int].0, self.by_ip.seq()[i as int].1)));
        }
        let ghost r0 = self.security.rate_limit_violations.seq();
        let entry = self.by_ip.value_at(i);
        let c1 = entry.count > 100 && is_recent(&entry.last_update, &current);
        if c1 {
            proof { law_bump_counts_bound(self.security.rate_limit_violations.seq(), p.ip@, b); }
            self.security.rate_limit_violations.increment(p.ip.as_str());
        }
        let ghost r1 = self.security.rate_limit_violations.seq();
        let url_c = chars_of(p.url.as_str());
        let auth = auth_endpoint_list();
        if mentions_any_exec(url_c.as_slice(), &auth) {
            let entry = self.by_ip.value_at(i);
            let hits = count_auth_hits(&entry.last_requests);
            if hits > 10 {
                proof { law_bump_counts_bound(self.security.rate_limit_violations.seq(), p.ip@, (b + 1) as nat); }
                self.security.rate_limit_violations.increment(p.ip.as_str());
            }
        }
        proof {
            let c = self.security;
            assert(counts_bounded(c.suspicious_ips.seq(), b + step_of(d, true)));
            assert(counts_bounded(c.attack_patterns.seq(), b + step_of(d, true)));
            assert(counts_bounded(c.rate_limit_violations.seq(), b + step_of(d, true)));
        }
        detected.len()
    }
}

impl LogData {
    /// Records request `p` among the errors when its status code is 400 or above.
    fn update_error_data(&mut self, p: &LogEntryParams, Ghost(b): Ghost<nat>)
        requires
            counter_ok(old(self).errors.error_urls, b),
            counter_ok(old(self).errors.error_ips, b),
            counter_ok(old(self).errors.error_patterns, b),
            map_bounded(old(self).errors.error_codes@, b),
            b + 2 <= usize::MAX,
        ensures
            ({
                let err = p.status_code is Some && p.status_code->0 >= 400;
                let o = old(self).errors;
                let n = final(self).errors;
                &&& n.error_codes@ == (if err { code_bumped(o.error_codes@, p.status_code->0) } else { o.error_codes@ })
                &&& n.error_urls.seq() == bump_if(o.error_urls.seq(), p.url@, err)
                &&& n.error_ips.seq() == bump_if(o.error_ips.seq(), p.ip@, err)
                &&& n.error_patterns.seq() == (if err { bump(o.error_patterns.seq(), error_class(p.status_code->0)) } else { o.error_patterns.seq() })
            }),
            counter_ok(final(self).errors.error_urls, b + 2),
            counter_ok(final(self).errors.error_ips, b + 2),
            counter_ok(final(self).errors.error_patterns, b + 2),
            map_bounded(final(self).errors.error_codes@, b + 2),
            final(self).by_ip == old(self).by_ip,
            final(self).by_url == old(self).by_url,
            final(self).total_requests == old(self).total_requests,
            final(self).requests_per_interval == old(self).requests_per_interval,
            final(self).security == old(self).security,
            final(self).bots == old(self).bots,
            final(self).enable_security == old(self).enable_security,
            final(self).enable_performance == old(self).enable_performance,
            final(self).enable_errors == old(self).enable_errors,
            final(self).enable_bots == old(self).enable_bots,
            final(self).enable_sparkline == old(self).enable_sparkline,
            final(self).counter_ceiling == old(self).counter_ceiling,
            final(self).enable_heatmap == old(self).enable_heatmap,
    {
        if let Some(code) = p.status_code {
            if code >= 400 {
                let c: usize = match self.errors.error_codes.get(&code) {
                    Some(v) => *v,
                    None => 0,
                };
                self.errors.error_codes.insert(code, c + 1);
                assert(self.errors.error_codes@ =~= code_bumped(old(self).errors.error_codes@, code));
                proof { law_bump_counts_bound(self.errors.error_urls.seq(), p.url@, b); }
                self.errors.error_urls.increment(p.url.as_str());
                proof { law_bump_counts_bound(self.errors.error_ips.seq(), p.ip@, b); }
                self.errors.error_ips.increment(p.ip.as_str());
                let class = if code <= 499 {
                    "Client Error"
                } else if 500 <= code && code <= 599 {
                    "Server Error"
                } else {
                    "Other Error"
                };
                assert(class@ == error_class(code));
                proof { law_bump_counts_bound(self.errors.error_patterns.seq(), class@, b); }
                self.errors.error_patterns.increment(class);
            }
        }
    }

    /// Records request `p` among the bots when its User-Agent names one; marks its IP as a bot.
    fn update_bot_data(&mut self, p: &LogEntryParams, Ghost(b): Ghost<nat>)
        requires
            old(self).by_ip.wf(),
            has_key(old(self).by_ip.seq(), p.ip@),
            counter_ok(old(self).bots.bot_ips, b),
            counter_ok(old(self).bots.bot_types, b),
            counter_ok(old(self).bots.bot_user_agents, b),
            counter_ok(old(self).bots.bot_urls, b),
            b + 2 <= usize::MAX,
        ensures
            ({
                let bot = bot_kind(*p) is Some;
                let o = old(self).bots;
                let n = final(self).bots;
                let m0 = models(old(self).by_ip.seq());
                let e = value_of(m0, p.ip@);
                &&& final(self).by_ip.wf()
                &&& models(final(self).by_ip.seq()) == (if bot {
                    upsert(m0, p.ip@, EntryModel { is_bot: true, bot_type: bot_kind(*p), ..e })
                } else {
                    m0
                })
                &&& n.bot_ips.seq() == bump_if(o.bot_ips.seq(), p.ip@, bot)
                &&& n.bot_types.seq() == (if bot { bump(o.bot_types.seq(), bot_kind(*p)->0) } else { o.bot_types.seq() })
                &&& n.bot_user_agents.seq() == (if bot { bump(o.bot_user_agents.seq(), p.user_agent->0@) } else { o.bot_user_agents.seq() })
                &&& n.bot_urls.seq() == bump_if(o.bot_urls.seq(), p.url@, bot)
            }),
            counter_ok(final(self).bots.bot_ips, b + 2),
            counter_ok(final(self).bots.bot_types, b + 2),
            counter_ok(final(self).bots.bot_user_agents, b + 2),
            counter_ok(final(self).bots.bot_urls, b + 2),
            final(self).by_url == old(self).by_url,
            final(self).total_requests == old(self).total_requests,
            final(self).requests_per_interval == old(self).requests_per_interval,
            final(self).security == old(self).security,
            final(self).errors == old(self).errors,
            final(self).enable_security == old(self).enable_security,
            final(self).enable_performance == old(self).enable_performance,
            final(self).enable_errors == old(self).enable_errors,
            final(self).enable_bots == old(self).enable_bots,
            final(self).enable_sparkline == old(self).enable_sparkline,
            final(self).counter_ceiling == old(self).counter_ceiling,
            final(self).enable_heatmap == old(self).enable_heatmap,
    {
        if let Some(ua) = &p.user_agent {
            let ua_l = chars_of(to_lowercase(ua.as_str()).as_str());
            let indicators = bot_indicator_list();
            let found = first_found_exec(&indicators, ua_l.as_slice());
            if let Some(kind) = found {
                proof { law_bump_counts_bound(self.bots.bot_ips.seq(), p.ip@, b); }
                self.bots.bot_ips.increment(p.ip.as_str());
                proof { law_bump_counts_bound(self.bots.bot_types.seq(), kind@, b); }
                self.bots.bot_types.increment(kind);
                proof { law_bump_counts_bound(self.bots.bot_user_agents.seq(), ua@, b); }
                self.bots.bot_user_agents.increment(ua.as_str());
                proof { law_bump_counts_bound(self.bots.bot_urls.seq(), p.url@, b); }
                self.bots.bot_urls.increment(p.url.as_str());
                let ghost s0 = self.by_ip.seq();
                let ghost m0 = models(s0);
                proof { lemma_models_key(s0, p.ip@); }
                match self.by_ip.find(p.ip.as_str()) {
                    Some(i) => {
                        let ghost e0 = s0[i as int].1;
                        {
                            let e = self.by_ip.value_at_mut(i);
                            e.is_bot = true;
                            e.bot_type = Some(String::from_str(kind));
                        }
                        proof {
                            let e2 = EntryModel { is_bot: true, bot_type: Some(kind@), ..e0@ };
                            lemma_update_is_upsert(m0, i as int, e2);
                            assert(models(self.by_ip.seq()) =~= m0.update(i as int, (p.ip@, e2)));
                            lemma_update_is_upsert(s0, i as int, self.by_ip.seq()[i as int].1);
                            assert(self.by_ip.seq() == s0.update(i as int, (s0[i as int].0, self.by_ip.seq()[i as int].1)));
                        }
                    },
                    None => {},
                }
            }
        }
    }

    /// Counts one more request at timestamp `ts`.
    fn bump_interval(&mut self, ts: i64, Ghost(b): Ghost<nat>)
        requires
            map_bounded(old(self).requests_per_interval@, b),
            b + 2 <= usize::MAX,
        ensures
            final(self).requests_per_interval@ == interval_bumped(old(self).requests_per_interval@, ts),
            map_bounded(final(self).requests_per_interval@, b + 2),
            final(self).by_ip == old(self).by_ip,
            final(self).by_url == old(self).by_url,
            final(self).total_requests == old(self).total_requests,
            final(self).security == old(self).security,
            final(self).errors == old(self).errors,
            final(self).bots == old(self).bots,
            final(self).enable_security == old(self).enable_security,
            final(self).enable_performance == old(self).enable_performance,
            final(self).enable_errors == old(self).enable_errors,
            final(self).enable_bots == old(self).enable_bots,
            final(self).enable_sparkline == old(self).enable_sparkline,
            final(self).counter_ceiling == old(self).counter_ceiling,
            final(self).enable_heatmap == old(self).enable_heatmap,
    {
        let c: usize = match self.requests_per_interval.get(&ts) {
            Some(v) => *v,
            None => 0,
        };
        self.requests_per_interval.insert(ts, c + 1);
        assert(self.requests_per_interval@ =~= interval_bumped(old(self).requests_per_interval@, ts));
    }
}

proof fn lemma_total_count_same(s: Seq<(Seq<char>, EntryModel)>, k: Seq<char>, v: EntryModel)
    requires
        keys_distinct(s),
        has_key(s, k),
        value_of(s, k).count == v.count,
    ensures
        total_count(upsert(s, k, v)) == total_count(s),
{
    lemma_total_count_update(s, key_index(s, k), (k, v));
}

proof fn lemma_entries_bounded_upsert(s: Seq<(Seq<char>, EntryModel)>, k: Seq<char>, v: EntryModel, b: nat)
    requires
        keys_distinct(s),
        entries_bounded(s, b),
        entry_bounded(v, b),
    ensures
        entries_bounded(upsert(s, k, v), b),
{
    let t = upsert(s, k, v);
    assert forall|i: int| 0 <= i < t.len() implies entry_bounded(#[trigger] t[i].1, b) by {
        if has_key(s, k) {
            if i != key_index(s, k) {
                assert(t[i] == s[i]);
            }
        } else if i < s.len() {
            assert(t[i] == s[i]);
        }
    }
}

proof fn lemma_entries_bounded_mono(s: Seq<(Seq<char>, EntryModel)>, b1: nat, b2: nat)
    requires
        entries_bounded(s, b1),
        b1 <= b2,
    ensures
        entries_bounded(s, b2),
{
    assert forall|i: int| 0 <= i < s.len() implies entry_bounded(#[trigger] s[i].1, b2) by {
        let e = s[i].1;
        assert(entry_bounded(e, b1));
        assert forall|j: int| 0 <= j < e.user_agents.len() implies (#[trigger] e.user_agents[j]).1 <= b2 by {}
    }
}

proof fn lemma_counter_mono(t: Table<usize>, b1: nat, b2: nat)
    requires
        counter_ok(t, b1),
        b1 <= b2,
    ensures
        counter_ok(t, b2),
{
    assert forall|j: int| 0 <= j < t.seq().len() implies (#[trigger] t.seq()[j]).1 <= b2 by {}
}

impl LogData {
    /// Adds request `p`: its IP statistics are stamped `now`, and the rate-limit
    /// check compares them with the instant `current`.
    #[verifier::spinoff_prover]
    #[verifier::rlimit(60)]
    pub fn add_entry_at(&mut self, p: LogEntryParams, now: SystemTime, current: SystemTime)
        requires
            old(self).wf(),
            old(self).has_room(),
        ensures
            final(self).wf(),
            added(*old(self), *final(self), p, now, current),
            final(self).counter_ceiling == old(self).counter_ceiling
                + step_of(detected_signatures(p), old(self).enable_security),
            final(self).counter_ceiling <= old(self).counter_ceiling + max_step(),
    {
        let ghost o = *self;
        let ghost b = self.counter_ceiling as nat;
        let ghost d = detected_signatures(p);
        let ghost k = step_of(d, self.enable_security);
        proof { lemma_detected_len_bound(p); }
        self.total_requests = self.total_requests + 1;
        record_in(&mut self.by_ip, &p.ip, &p, now, None, Ghost(b));
        let url_copy = p.url.clone();
        record_in(&mut self.by_url, &p.url, &p, now, Some(url_copy), Ghost(b));
        let ghost m0 = models(o.by_ip.seq());
        let ghost e1 = entry_after(m0, p.ip@, p, now, None);
        let ghost m1 = models(self.by_ip.seq());
        proof {
            lemma_models_key(o.by_ip.seq(), p.ip@);
            lemma_upsert_distinct(m0, p.ip@, e1);
            lemma_models_key(self.by_ip.seq(), p.ip@);
            lemma_entries_bounded_mono(models(self.by_url.seq()), b + 1, b + k);
        }
        let mut step: usize = 2;
        if self.enable_security {
            let n = self.update_security_data(&p, current, Ghost(b));
            if n > 2 {
                step = n;
            }
            proof {
                let d = detected_signatures(p);
                let e2 = EntryModel { suspicious_patterns: add_missing(e1.suspicious_patterns, d), ..e1 };
                lemma_upsert_twice(m0, p.ip@, e1, e2);
                lemma_total_count_same(m1, p.ip@, e2);
                lemma_entries_bounded_upsert(m1, p.ip@, e2, b + 1);
            }
        } else {
            proof {
                lemma_counter_mono(self.security.suspicious_ips, b, b + k);
                lemma_counter_mono(self.security.attack_patterns, b, b + k);
                lemma_counter_mono(self.security.rate_limit_violations, b, b + k);
            }
        }
        assert(step == k);
        let ghost m2 = models(self.by_ip.seq());
        let ghost e2 = if o.enable_security {
            EntryModel { suspicious_patterns: add_missing(e1.suspicious_patterns, detected_signatures(p)), ..e1 }
        } else {
            e1
        };
        proof {
            assert(m2 == upsert(m0, p.ip@, e2));
            lemma_upsert_distinct(m0, p.ip@, e2);
            lemma_models_key(self.by_ip.seq(), p.ip@);
        }
        if self.enable_errors {
            self.update_error_data(&p, Ghost(b));
        } else {
            proof {
                lemma_counter_mono(self.errors.error_urls, b, b + k);
                lemma_counter_mono(self.errors.error_ips, b, b + k);
                lemma_counter_mono(self.errors.error_patterns, b, b + k);
            }
        }
        if self.enable_bots {
            self.update_bot_data(&p, Ghost(b));
            proof {
                if bot_kind(p) is Some {
                    let e3 = EntryModel { is_bot: true, bot_type: bot_kind(p), ..e2 };
                    lemma_upsert_twice(m0, p.ip@, e2, e3);
                    lemma_total_count_same(m2, p.ip@, e3);
                    lemma_entries_bounded_upsert(m2, p.ip@, e3, b + 1);
                }
            }
        } else {
            proof {
                lemma_counter_mono(self.bots.bot_ips, b, b + k);
                lemma_counter_mono(self.bots.bot_types, b, b + k);
                lemma_counter_mono(self.bots.bot_user_agents, b, b + k);
                lemma_counter_mono(self.bots.bot_urls, b, b + k);
            }
        }
        if self.enable_sparkline || self.enable_heatmap {
            self.bump_interval(p.timestamp, Ghost(b));
        }
        proof {
            lemma_entries_bounded_mono(models(self.by_ip.seq()), b + 1, b + k);
        }
        proof { lemma_detected_len_bound(p); }
        self.counter_ceiling = self.counter_ceiling + step;
    }

    /// Adds request `p`, stamped with the current time.
    pub fn add_entry(&mut self, p: LogEntryParams)
        requires
            old(self).wf(),
            old(self).has_room(),
        ensures
            final(self).wf(),
            exists|now: SystemTime, current: SystemTime| added(*old(self), *final(self), p, now, current),
            final(self).counter_ceiling == old(self).counter_ceiling
                + step_of(detected_signatures(p), old(self).enable_security),
            final(self).counter_ceiling <= old(self).counter_ceiling + max_step(),
    {
        let now = system_now();
        let current = system_now();
        self.add_entry_at(p, now, current);
    }
}

/// The number of requests counted for `key` in `s` (0 when it has no entry).
pub open spec fn requests_of(s: Seq<(Seq<char>, EntryModel)>, key: Seq<char>) -> nat {
    if has_key(s, key) { value_of(s, key).count } else { 0 }
}

proof fn lemma_models_distinct(s: Seq<(Seq<char>, LogEntry)>)
    requires
        keys_distinct(s),
    ensures
        keys_distinct(models(s)),
{
    assert forall|i: int, j: int| 0 <= i < models(s).len() && 0 <= j < models(s).len() && i != j
        implies models(s)[i].0 != models(s)[j].0 by {
        assert(models(s)[i].0 == s[i].0 && models(s)[j].0 == s[j].0);
    }
}

/// A request is counted once: its IP and its URL have one request more, every other
/// IP and URL as many as before, and the total grows by one.
pub proof fn law_request_counted_once(o: LogData, n: LogData, p: LogEntryParams, now: SystemTime,
    current: SystemTime, other: Seq<char>)
    requires
        o.wf(),
        added(o, n, p, now, current),
    ensures
        n.total_requests == o.total_requests + 1,
        requests_of(models(n.by_ip.seq()), p.ip@) == requests_of(models(o.by_ip.seq()), p.ip@) + 1,
        requests_of(models(n.by_url.seq()), p.url@) == requests_of(models(o.by_url.seq()), p.url@) + 1,
        other != p.ip@ ==> requests_of(models(n.by_ip.seq()), other) == requests_of(models(o.by_ip.seq()), other),
        other != p.url@ ==> requests_of(models(n.by_url.seq()), other) == requests_of(models(o.by_url.seq()), other),
{
    lemma_models_distinct(o.by_ip.seq());
    lemma_models_distinct(o.by_url.seq());
    let e_ip = ip_entry_after(o, p, now);
    let e_url = entry_after(models(o.by_url.seq()), p.url@, p, now, Some(p.url@));
    lemma_upsert_distinct(models(o.by_ip.seq()), p.ip@, e_ip);
    lemma_upsert_distinct(models(o.by_url.seq()), p.url@, e_url);
    assert(e_ip.count == requests_of(models(o.by_ip.seq()), p.ip@) + 1);
    assert(e_url.count == requests_of(models(o.by_url.seq()), p.url@) + 1);
}

/// Adding a request keeps the requesting IP's list of attack signatures free of
/// duplicates: the old list stays at its start in the same order, and with the
/// security checks on it then holds exactly the old signatures and the ones the
/// request matches (with them off it is unchanged).
pub proof fn law_request_keeps_ip_patterns_distinct(o: LogData, n: LogData, p: LogEntryParams,
    now: SystemTime, current: SystemTime)
    requires
        o.wf(),
        added(o, n, p, now, current),
        has_key(o.by_ip.seq(), p.ip@) ==> value_of(models(o.by_ip.seq()), p.ip@).suspicious_patterns.no_duplicates(),
    ensures
        ({
            let old_list = if has_key(o.by_ip.seq(), p.ip@) {
                value_of(models(o.by_ip.seq()), p.ip@).suspicious_patterns
            } else {
                Seq::empty()
            };
            let new_list = value_of(models(n.by_ip.seq()), p.ip@).suspicious_patterns;
            &&& new_list.no_duplicates()
            &&& new_list.len() >= old_list.len()
            &&& new_list.take(old_list.len() as int) == old_list
            &&& forall|x: Seq<char>| new_list.contains(x) <==> (old_list.contains(x)
                || (o.enable_security && detected_signatures(p).contains(x)))
        }),
{
    lemma_models_distinct(o.by_ip.seq());
    lemma_models_key(o.by_ip.seq(), p.ip@);
    let m0 = models(o.by_ip.seq());
    let e_ip = ip_entry_after(o, p, now);
    lemma_upsert_distinct(m0, p.ip@, e_ip);
    let e1 = entry_after(m0, p.ip@, p, now, None);
    let old_list = if has_key(o.by_ip.seq(), p.ip@) { value_of(m0, p.ip@).suspicious_patterns } else { Seq::<Seq<char>>::empty() };
    assert(e1.suspicious_patterns == old_list);
    assert(old_list.no_duplicates());
    if o.enable_security {
        law_add_missing_keeps_distinct(old_list, detected_signatures(p));
    } else {
        assert(old_list.take(old_list.len() as int) =~= old_list);
    }
}

/// A counted error is classed by its status code: 400 to 499 as "Client Error",
/// 500 to 599 as "Server Error", anything else from 400 up as "Other Error"; that
/// class's count rises by one and every other class keeps its count.
pub proof fn law_error_class_by_status(o: LogData, n: LogData, p: LogEntryParams, now: SystemTime,
    current: SystemTime, other: Seq<char>)
    requires
        o.wf(),
        added(o, n, p, now, current),
        o.enable_errors,
        p.status_code is Some,
        p.status_code->0 >= 400,
        o.counter_ceiling + max_step() <= usize::MAX,
    ensures
        ({
            let c = p.status_code->0;
            let class = if c <= 499 { "Client Error"@ } else if c <= 599 { "Server Error"@ } else { "Other Error"@ };
            &&& count_of(n.errors.error_patterns.seq(), class) == count_of(o.errors.error_patterns.seq(), class) + 1
            &&& other != class ==> count_of(n.errors.error_patterns.seq(), other) == count_of(o.errors.error_patterns.seq(), other)
        }),
{
    let c = p.status_code->0;
    let class = if c <= 499 { "Client Error"@ } else if c <= 599 { "Server Error"@ } else { "Other Error"@ };
    assert(error_class(c) == class);
    let s = o.errors.error_patterns.seq();
    if has_key(s, class) {
        assert(s[key_index(s, class)].1 <= o.counter_ceiling);
    }
    if other != class {
        law_bump_counts(s, class, other);
    } else {
        lemma_upsert_distinct(s, class, (count_of(s, class) + 1) as usize);
    }
}

/// After a request, each of its IP's and its URL's last requests starts with the
/// request's log line, followed by the lines that were there before, newest first,
/// at most ten in all (the oldest dropped).
pub proof fn law_last_requests_newest_first(o: LogData, n: LogData, p: LogEntryParams, now: SystemTime,
    current: SystemTime, key: Seq<char>, by_url: bool)
    requires
        o.wf(),
        added(o, n, p, now, current),
        key == (if by_url { p.url@ } else { p.ip@ }),
        ({
            let t = if by_url { o.by_url.seq() } else { o.by_ip.seq() };
            has_key(t, key) ==> value_of(models(t), key).last_requests.len() <= 10
        }),
    ensures
        ({
            let t0 = if by_url { o.by_url.seq() } else { o.by_ip.seq() };
            let t1 = if by_url { n.by_url.seq() } else { n.by_ip.seq() };
            let before = if has_key(t0, key) { value_of(models(t0), key).last_requests } else { Seq::empty() };
            let after = value_of(models(t1), key).last_requests;
            let len = if before.len() < 10 { before.len() + 1 } else { 10 };
            &&& after.len() == len
            &&& after[0] == p.log_line@
            &&& forall|i: int| 1 <= i < len ==> #[trigger] after[i] == before[i - 1]
        }),
{
    lemma_models_distinct(o.by_ip.seq());
    lemma_models_distinct(o.by_url.seq());
    lemma_models_key(o.by_ip.seq(), p.ip@);
    lemma_models_key(o.by_url.seq(), p.url@);
    let m_ip = models(o.by_ip.seq());
    let m_url = models(o.by_url.seq());
    lemma_upsert_distinct(m_ip, p.ip@, ip_entry_after(o, p, now));
    lemma_upsert_distinct(m_url, p.url@, entry_after(m_url, p.url@, p, now, Some(p.url@)));
}

/// The authentication endpoints a URL can mention, by their text.
proof fn lemma_no_auth_endpoint(url: Seq<char>)
    requires
        !contains_sub(url, "/login"@),
        !contains_sub(url, "/auth"@),
        !contains_sub(url, "/admin"@),
        !contains_sub(url, "/wp-admin"@),
        !contains_sub(url, "/wp-login"@),
        !contains_sub(url, "/administrator"@),
    ensures
        !mentions_any(url, auth_endpoints()),
{
    let a = auth_endpoints();
    assert(a =~= seq!["/login"@, "/auth"@, "/admin"@, "/wp-admin"@, "/wp-login"@, "/administrator"@]);
    assert forall|i: int| 0 <= i < a.len() implies !contains_sub(url, #[trigger] a[i]) by {}
}

/// With the security checks on, a request from an IP that then has made more than
/// 100 requests, its last one (this one) within the minute before the check, raises
/// that IP's rate-limit violations by one; otherwise (for a URL that names no login or
/// admin endpoint) they stay as they were.
pub proof fn law_busy_ip_is_rate_limited(o: LogData, n: LogData, p: LogEntryParams, now: SystemTime,
    current: SystemTime)
    requires
        o.wf(),
        added(o, n, p, now, current),
        o.enable_security,
        o.counter_ceiling + max_step() <= usize::MAX,
        !contains_sub(p.url@, "/login"@),
        !contains_sub(p.url@, "/auth"@),
        !contains_sub(p.url@, "/admin"@),
        !contains_sub(p.url@, "/wp-admin"@),
        !contains_sub(p.url@, "/wp-login"@),
        !contains_sub(p.url@, "/administrator"@),
    ensures
        count_of(n.security.rate_limit_violations.seq(), p.ip@)
            == count_of(o.security.rate_limit_violations.seq(), p.ip@)
            + (if requests_of(models(n.by_ip.seq()), p.ip@) > 100 && updated_recently(now, current) { 1int } else { 0int }),
{
    lemma_no_auth_endpoint(p.url@);
    lemma_models_distinct(o.by_ip.seq());
    lemma_models_key(o.by_ip.seq(), p.ip@);
    let e = ip_entry_after(o, p, now);
    lemma_upsert_distinct(models(o.by_ip.seq()), p.ip@, e);
    assert(requests_of(models(n.by_ip.seq()), p.ip@) == e.count);
    assert(e.last_update == now);
    let s = o.security.rate_limit_violations.seq();
    if has_key(s, p.ip@) {
        assert(s[key_index(s, p.ip@)].1 <= o.counter_ceiling);
    }
    lemma_upsert_distinct(s, p.ip@, (count_of(s, p.ip@) + 1) as usize);
}

/// The first of `pats` that occurs in `text` is what `first_found` gives; when none
/// occurs it gives nothing.
proof fn lemma_first_found(pats: Seq<Seq<char>>, text: Seq<char>, i: int)
    ensures
        (0 <= i < pats.len() && contains_sub(text, pats[i])
            && forall|j: int| 0 <= j < i ==> !contains_sub(text, #[trigger] pats[j]))
            ==> first_found(pats, text) == Some(pats[i]),
        (forall|j: int| 0 <= j < pats.len() ==> !contains_sub(text, #[trigger] pats[j]))
            ==> first_found(pats, text) is None,
    decreases pats.len(),
{
    if pats.len() > 0 {
        lemma_first_found(pats.skip(1), text, i - 1);
        if forall|j: int| 0 <= j < pats.len() ==> !contains_sub(text, #[trigger] pats[j]) {
            assert forall|j: int| 0 <= j < pats.skip(1).len() implies !contains_sub(text, #[trigger] pats.skip(1)[j]) by {
                assert(pats.skip(1)[j] == pats[j + 1]);
            }
        }
        if 0 < i < pats.len() && contains_sub(text, pats[i])
            && forall|j: int| 0 <= j < i ==> !contains_sub(text, #[trigger] pats[j]) {
            assert(!contains_sub(text, pats[0]));
            assert(pats.skip(1)[i - 1] == pats[i]);
            assert forall|j: int| 0 <= j < i - 1 implies !contains_sub(text, #[trigger] pats.skip(1)[j]) by {
                assert(pats.skip(1)[j] == pats[j + 1]);
            }
        }
    }
}

/// A request is from a bot exactly when its lower-cased User-Agent contains one of
/// "googlebot", "bingbot", "slurp", "teoma", "ia_archiver", "rogerbot", "exabot",
/// "mj12bot", "bot", "crawler", "spider" or "scraper"; its bot type is the first of
/// these, in that order, that the User-Agent contains.
pub proof fn law_bot_kind_by_indicator(p: LogEntryParams, i: int)
    ensures
        ({
            let l = seq!["googlebot"@, "bingbot"@, "slurp"@, "teoma"@, "ia_archiver"@, "rogerbot"@,
                "exabot"@, "mj12bot"@, "bot"@, "crawler"@, "spider"@, "scraper"@];
            &&& p.user_agent is None ==> bot_kind(p) is None
            &&& p.user_agent is Some ==> {
                let ua = lowercase(p.user_agent->0@);
                &&& (forall|j: int| 0 <= j < 12 ==> !contains_sub(ua, #[trigger] l[j])) ==> bot_kind(p) is None
                &&& (0 <= i < 12 && contains_sub(ua, l[i])
                    && forall|j: int| 0 <= j < i ==> !contains_sub(ua, #[trigger] l[j]))
                    ==> bot_kind(p) == Some(l[i])
            }
        }),
{
    let l = seq!["googlebot"@, "bingbot"@, "slurp"@, "teoma"@, "ia_archiver"@, "rogerbot"@,
        "exabot"@, "mj12bot"@, "bot"@, "crawler"@, "spider"@, "scraper"@];
    assert(bot_indicators() =~= l);
    if p.user_agent is Some {
        lemma_first_found(l, lowercase(p.user_agent->0@), i);
    }
}

/// With the bot checks on, a request from a bot of type `k` counts once more for
/// that type, for its IP and for its URL; a request from no bot changes none of
/// the bot counts.
pub proof fn law_bot_request_counted(o: LogData, n: LogData, p: LogEntryParams, now: SystemTime,
    current: SystemTime)
    requires
        o.wf(),
        added(o, n, p, now, current),
        o.enable_bots,
        o.counter_ceiling + max_step() <= usize::MAX,
    ensures
        bot_kind(p) matches Some(k) ==> {
            &&& count_of(n.bots.bot_types.seq(), k) == count_of(o.bots.bot_types.seq(), k) + 1
            &&& count_of(n.bots.bot_ips.seq(), p.ip@) == count_of(o.bots.bot_ips.seq(), p.ip@) + 1
            &&& count_of(n.bots.bot_urls.seq(), p.url@) == count_of(o.bots.bot_urls.seq(), p.url@) + 1
        },
        bot_kind(p) is None ==> {
            &&& n.bots.bot_types.seq() == o.bots.bot_types.seq()
            &&& n.bots.bot_ips.seq() == o.bots.bot_ips.seq()
            &&& n.bots.bot_urls.seq() == o.bots.bot_urls.seq()
        },
{
    if let Some(k) = bot_kind(p) {
        let a = o.bots.bot_types.seq();
        let b = o.bots.bot_ips.seq();
        let c = o.bots.bot_urls.seq();
        if has_key(a, k) { assert(a[key_index(a, k)].1 <= o.counter_ceiling); }
        if has_key(b, p.ip@) { assert(b[key_index(b, p.ip@)].1 <= o.counter_ceiling); }
        if has_key(c, p.url@) { assert(c[key_index(c, p.url@)].1 <= o.counter_ceiling); }
        lemma_upsert_distinct(a, k, (count_of(a, k) + 1) as usize);
        lemma_upsert_distinct(b, p.ip@, (count_of(b, p.ip@) + 1) as usize);
        lemma_upsert_distinct(c, p.url@, (count_of(c, p.url@) + 1) as usize);
    }
}

/// With the error checks on, a request whose status code is 400 or more counts once
/// more for its code, its URL and its IP; a request below 400 or without a code
/// changes none of the error counts.
pub proof fn law_error_request_counted(o: LogData, n: LogData, p: LogEntryParams, now: SystemTime,
    current: SystemTime)
    requires
        o.wf(),
        added(o, n, p, now, current),
        o.enable_errors,
        o.counter_ceiling + max_step() <= usize::MAX,
    ensures
        (p.status_code is Some && p.status_code->0 >= 400) ==> {
            let c = p.status_code->0;
            &&& n.errors.error_codes@.contains_key(c)
            &&& n.errors.error_codes@[c] == (if o.errors.error_codes@.contains_key(c) { o.errors.error_codes@[c] + 1 } else { 1 })
            &&& count_of(n.errors.error_urls.seq(), p.url@) == count_of(o.errors.error_urls.seq(), p.url@) + 1
            &&& count_of(n.errors.error_ips.seq(), p.ip@) == count_of(o.errors.error_ips.seq(), p.ip@) + 1
        },
        !(p.status_code is Some && p.status_code->0 >= 400) ==> {
            &&& n.errors.error_codes@ == o.errors.error_codes@
            &&& n.errors.error_urls.seq() == o.errors.error_urls.seq()
            &&& n.errors.error_ips.seq() == o.errors.error_ips.seq()
            &&& n.errors.error_patterns.seq() == o.errors.error_patterns.seq()
        },
{
    if p.status_code is Some && p.status_code->0 >= 400 {
        let b = o.errors.error_ips.seq();
        let c = o.errors.error_urls.seq();
        if has_key(b, p.ip@) { assert(b[key_index(b, p.ip@)].1 <= o.counter_ceiling); }
        if has_key(c, p.url@) { assert(c[key_index(c, p.url@)].1 <= o.counter_ceiling); }
        lemma_upsert_distinct(b, p.ip@, (count_of(b, p.ip@) + 1) as usize);
        lemma_upsert_distinct(c, p.url@, (count_of(c, p.url@) + 1) as usize);
    }
}

/// `s` lists each entry of `m` exactly once, in some order.
pub open spec fn lists_entries<K>(s: Seq<(K, usize)>, m: Map<K, usize>) -> bool {
    &&& s.no_duplicates()
    &&& s.len() == m.dom().len()
    &&& forall|i: int| 0 <= i < s.len() ==> m.contains_key(#[trigger] s[i].0) && m[s[i].0] == s[i].1
    &&& forall|k: K| #[trigger] m.contains_key(k) ==> s.contains((k, m[k]))
}

/// The entries of a map keyed by status code, in the map's iteration order.
fn code_pairs(m: &HashMap<u16, usize>) -> (r: Vec<(u16, usize)>)
    ensures
        lists_entries(r@, m@),
{
    let mut v: Vec<(u16, usize)> = Vec::new();
    let iter = m.iter();
    let ghost full = iter.remaining();
    proof {
        broadcast use vstd::std_specs::hash::axiom_spec_hash_map_iter;
        assert(full.no_duplicates());
        assert(full == vstd::std_specs::hash::spec_hash_map_iter(m).remaining());
    }
    for kv in it: iter
        invariant
            it.seq() == full,
            v@ == full.take(it.index()).unref(),
    {
        let (k, c) = kv;
        let ghost prev = v@;
        v.push((*k, *c));
        assert(full.take(it.index() + 1).unref() =~= prev.push((*k, *c)));
    }
    assert(v@ =~= full.unref());
    proof {
        broadcast use vstd::std_specs::hash::axiom_spec_hash_map_iter;
        let r = v@;
        assert forall|i: int, j: int| 0 <= i < r.len() && 0 <= j < r.len() && i != j implies r[i] != r[j] by {
            assert(full[i] != full[j]);
        }
        assert forall|k: u16| #[trigger] m@.contains_key(k) implies r.contains((k, m@[k])) by {
            assert(full.contains((&k, &m@[k])));
            let i = choose|i: int| 0 <= i < full.len() && full[i] == (&k, &m@[k]);
            assert(r[i] == (k, m@[k]));
        }
        assert forall|i: int| 0 <= i < r.len() implies m@.contains_key(#[trigger] r[i].0) && m@[r[i].0] == r[i].1 by {
            assert(m@.contains_key(*full[i].0));
        }
    }
    v
}

/// The counts of a table of `(key, statistics)`, in storage order.
pub open spec fn entry_counts(s: Seq<(Seq<char>, EntryModel)>) -> Seq<(Seq<char>, usize)> {
    s.map_values(|p: (Seq<char>, EntryModel)| (p.0, p.1.count as usize))
}

/// The returned pairs: their keys and the counts of the statistics they refer to.
pub open spec fn top_view(v: Seq<(String, &LogEntry)>) -> Seq<(Seq<char>, usize)> {
    v.map_values(|p: (String, &LogEntry)| (p.0@, p.1.count))
}

/// The `n` keys of a table with the most requests, most first, with their statistics.
fn top_entries(t: &Table<LogEntry>, n: usize) -> (r: Vec<(String, &LogEntry)>)
    requires
        t.wf(),
    ensures
        top_view(r@) == first_n(sort_desc(entry_counts(models(t.seq()))), n as nat),
        forall|i: int| 0 <= i < r@.len() ==> has_key(t.seq(), #[trigger] r@[i].0@) && *r@[i].1 == value_of(t.seq(), r@[i].0@),
{
    let ghost ts = t.seq();
    let mut counts: Vec<usize> = Vec::new();
    let mut i: usize = 0;
    while i < t.len()
        invariant
            ts == t.seq(),
            i <= ts.len(),
            counts@.len() == i,
            forall|k: int| 0 <= k < i ==> counts@[k] == ts[k].1.count,
        decreases ts.len() - i,
    {
        counts.push(t.value_at(i).count);
        i += 1;
    }
    let order = sort_indices_desc(&counts);
    let ghost keys = ts.map_values(|p: (Seq<char>, LogEntry)| p.0);
    proof {
        lemma_sort_desc_len(indexed(counts@));
        lemma_sort_rekey(counts@, keys);
        law_sort_desc_sorted_permutation(indexed(counts@));
        assert(rekey(indexed(counts@), keys) =~= entry_counts(models(ts)));
        assert forall|m: int| 0 <= m < order@.len() implies order@[m].0 < ts.len()
            && order@[m].1 == counts@[order@[m].0 as int] by {
            broadcast use vstd::seq_lib::group_to_multiset_ensures;
            let e = order@[m];
            assert(order@.contains(e));
            assert(indexed(counts@).to_multiset().count(e) > 0);
            assert(indexed(counts@).contains(e));
            let j = choose|j: int| 0 <= j < indexed(counts@).len() && indexed(counts@)[j] == e;
        }
    }
    let limit = if n < order.len() { n } else { order.len() };
    let mut r: Vec<(String, &LogEntry)> = Vec::new();
    let mut k: usize = 0;
    while k < limit
        invariant
            ts == t.seq(),
            t.wf(),
            order@ == sort_desc(indexed(counts@)),
            counts@.len() == ts.len(),
            forall|m: int| 0 <= m < counts@.len() ==> counts@[m] == ts[m].1.count,
            keys == ts.map_values(|p: (Seq<char>, LogEntry)| p.0),
            limit <= order@.len(),
            k <= limit,
            forall|m: int| 0 <= m < order@.len() ==> order@[m].0 < ts.len() && order@[m].1 == counts@[order@[m].0 as int],
            top_view(r@) == rekey(order@, keys).take(k as int),
            forall|m: int| 0 <= m < r@.len() ==> has_key(ts, #[trigger] r@[m].0@) && *r@[m].1 == value_of(ts, r@[m].0@),
        decreases limit - k,
    {
        let (idx, cnt) = order[k];
        let key = t.key_at(idx).clone();
        let e = t.value_at(idx);
        proof {
            lemma_key_index(ts, key@, idx as int);
        }
        let ghost prev = r@;
        r.push((key, e));
        assert(top_view(r@) =~= top_view(prev).push((key@, e.count)));
        assert(rekey(order@, keys)[k as int] == (key@, cnt));
        assert(top_view(r@) =~= rekey(order@, keys).take(k as int + 1));
        k += 1;
    }
    proof {
        lemma_sort_desc_len(entry_counts(models(ts)));
        if n < order@.len() {
            assert(rekey(order@, keys).take(k as int) =~= sort_desc(entry_counts(models(ts))).take(n as int));
        } else {
            assert(rekey(order@, keys).take(k as int) =~= sort_desc(entry_counts(models(ts))));
        }
    }
    r
}

/// The sum of the request counts of a table, by position.
fn sum_counts(t: &Table<LogEntry>, Ghost(bound): Ghost<nat>) -> (r: usize)
    requires
        total_count(models(t.seq())) == bound,
        bound <= usize::MAX,
    ensures
        r == bound,
{
    let ghost m = models(t.seq());
    let mut sum: usize = 0;
    let mut i: usize = 0;
    while i < t.len()
        invariant
            m == models(t.seq()),
            total_count(m) == bound,
            bound <= usize::MAX,
            i <= m.len(),
            sum == total_count(m.take(i as int)),
        decreases m.len() - i,
    {
        proof {
            assert(m.take(i as int + 1).drop_last() =~= m.take(i as int));
            lemma_total_count_prefix(m, i as int + 1);
        }
        sum = sum + t.value_at(i).count;
        i += 1;
    }
    assert(m.take(i as int) =~= m);
    sum
}

proof fn lemma_total_count_prefix(s: Seq<(Seq<char>, EntryModel)>, i: int)
    requires
        0 <= i <= s.len(),
    ensures
        total_count(s.take(i)) <= total_count(s),
    decreases s.len() - i,
{
    if i < s.len() {
        lemma_total_count_prefix(s, i + 1);
        assert(s.take(i + 1).drop_last() =~= s.take(i));
    } else {
        assert(s.take(i) =~= s);
    }
}

impl LogData {
    /// The `n` IPs and the `n` URLs with the most requests, most first (ties in storage order).
    pub fn get_top_n(&self, n: usize) -> (r: (TopEntries<'_>, TopEntries<'_>))
        requires
            self.wf(),
        ensures
            top_view(r.0@) == first_n(sort_desc(entry_counts(models(self.by_ip.seq()))), n as nat),
            top_view(r.1@) == first_n(sort_desc(entry_counts(models(self.by_url.seq()))), n as nat),
            forall|i: int| 0 <= i < r.0@.len() ==> *r.0@[i].1 == value_of(self.by_ip.seq(), #[trigger] r.0@[i].0@),
            forall|i: int| 0 <= i < r.1@.len() ==> *r.1@[i].1 == value_of(self.by_url.seq(), #[trigger] r.1@[i].0@),
    {
        (top_entries(&self.by_ip, n), top_entries(&self.by_url, n))
    }

    /// The numbers of distinct IPs and of distinct URLs.
    pub fn get_unique_counts(&self) -> (r: (usize, usize))
        ensures
            r.0 == self.by_ip.seq().len(),
            r.1 == self.by_url.seq().len(),
    {
        (self.by_ip.len(), self.by_url.len())
    }

    /// The total number of requests added.
    pub fn get_total_requests(&self) -> (r: usize)
        ensures
            r == self.total_requests,
    {
        self.total_requests
    }

    /// The total number of lines processed: the sum of the request counts of all IPs.
    pub fn get_total_lines(&self) -> (r: usize)
        requires
            self.wf(),
        ensures
            r == total_count(models(self.by_ip.seq())),
            r == self.total_requests,
    {
        sum_counts(&self.by_ip, Ghost(self.total_requests as nat))
    }

    /// The most recent log lines of `ip` (newest first), or none for an unknown IP.
    pub fn get_last_requests(&self, ip: &str) -> (r: Vec<String>)
        requires
            self.wf(),
        ensures
            has_key(self.by_ip.seq(), ip@) ==> r@ == value_of(self.by_ip.seq(), ip@).last_requests@,
            !has_key(self.by_ip.seq(), ip@) ==> r@.len() == 0,
    {
        match self.by_ip.get(ip) {
            Some(e) => {
                let r = e.last_requests.clone();
                assert(r@ =~= e.last_requests@);
                r
            },
            None => Vec::new(),
        }
    }

    /// The numbers of suspicious IPs, of attack patterns seen and of IPs with rate-limit violations.
    pub fn get_security_summary(&self) -> (r: (usize, usize, usize))
        ensures
            r == (self.security.suspicious_ips.seq().len() as usize, self.security.attack_patterns.seq().len() as usize,
                self.security.rate_limit_violations.seq().len() as usize),
    {
        (self.security.suspicious_ips.len(), self.security.attack_patterns.len(), self.security.rate_limit_violations.len())
    }

    /// The numbers of distinct error codes, of failing URLs and of failing IPs.
    pub fn get_error_summary(&self) -> (r: (usize, usize, usize))
        ensures
            r.0 == self.errors.error_codes@.len(),
            r.1 == self.errors.error_urls.seq().len(),
            r.2 == self.errors.error_ips.seq().len(),
    {
        (self.errors.error_codes.len(), self.errors.error_urls.len(), self.errors.error_ips.len())
    }

    /// The numbers of bot IPs, of bot kinds and of URLs visited by bots.
    pub fn get_bot_summary(&self) -> (r: (usize, usize, usize))
        ensures
            r == (self.bots.bot_ips.seq().len() as usize, self.bots.bot_types.seq().len() as usize,
                self.bots.bot_urls.seq().len() as usize),
    {
        (self.bots.bot_ips.len(), self.bots.bot_types.len(), self.bots.bot_urls.len())
    }

    /// The suspicious IPs with their counts, most suspicious first.
    pub fn get_top_suspicious_ips(&self) -> (r: Vec<(String, usize)>)
        ensures
            r@.map_values(|p: (String, usize)| (p.0@, p.1)) == sort_desc(self.security.suspicious_ips.seq()),
    {
        sort_pairs_desc(self.security.suspicious_ips.to_pairs())
    }

    /// The error status codes with their counts, most frequent first.
    pub fn get_top_error_codes(&self) -> (r: Vec<(u16, usize)>)
        ensures
            exists|s: Seq<(u16, usize)>| lists_entries(s, self.errors.error_codes@) && r@ == sort_desc(s),
    {
        let pairs = code_pairs(&self.errors.error_codes);
        sort_codes_desc(pairs)
    }

    /// The bot kinds with their counts, most frequent first.
    pub fn get_top_bot_types(&self) -> (r: Vec<(String, usize)>)
        ensures
            r@.map_values(|p: (String, usize)| (p.0@, p.1)) == sort_desc(self.bots.bot_types.seq()),
    {
        sort_pairs_desc(self.bots.bot_types.to_pairs())
    }

    /// The attack signatures recorded for `ip`, or none for an unknown IP.
    pub fn get_suspicious_patterns_for_ip(&self, ip: &str) -> (r: Vec<String>)
        requires
            self.wf(),
        ensures
            has_key(self.by_ip.seq(), ip@) ==> r@ == value_of(self.by_ip.seq(), ip@).suspicious_patterns@,
            !has_key(self.by_ip.seq(), ip@) ==> r@.len() == 0,
    {
        match self.by_ip.get(ip) {
            Some(e) => {
                let r = e.suspicious_patterns.clone();
                assert(r@ =~= e.suspicious_patterns@);
                r
            },
            None => Vec::new(),
        }
    }
}

} // verus!
