use vstd::prelude::*;
use dashmap::DashMap;
use std::time::SystemTime;
use crate::clock::{system_now, unix_secs, epoch_secs};
use crate::sorting::{first_n, sort_desc, sort_pairs_desc, sort_codes_desc};
use crate::text::{decimal, u64_to_string, hits, find_hits, contains_sub, lowercase, to_lowercase, chars_of, contains};
use crate::table::{Table, tally, law_tally_counts};
use crate::shared_maps::{
    record_table, id_lists, code_lists, id_flags, without, appended, removed_id, lists_keys,
    records_new, records_len, records_insert, records_remove, records_get, records_keys, records_clear,
    index_new, index_len, index_push, index_remove_id, index_get, index_sizes, index_clear,
    codes_new, codes_len, codes_push, codes_remove_id, codes_sizes, codes_clear,
    flags_new, flags_len, flags_insert, flags_remove, flags_keys, flags_clear,
};

verus! {

/// One parsed log line as stored in the record store.
#[derive(Clone, Debug)]
pub struct LogRecord {
    pub id: u64,
    pub ip: String,
    pub url: String,
    pub timestamp: i64,
    pub request_type: String,
    pub request_domain: String,
    pub status_code: Option<u16>,
    pub response_size: Option<u64>,
    /// Response time in seconds, as the bit pattern of an `f32` (`f32::to_bits`).
    pub response_time: Option<u32>,
    pub user_agent: Option<String>,
    pub log_line: String,
    pub created_at: SystemTime,
}

/// Summary counters of the record store.
#[derive(Clone, Copy, Debug)]
pub struct DBStats {
    pub total_records: usize,
    pub unique_ips: usize,
    pub unique_urls: usize,
    pub unique_domains: usize,
    pub total_requests: usize,
    pub total_response_size: u64,
}

impl DBStats {
    /// All counters at zero.
    pub fn new() -> (r: Self)
        ensures
            r.total_records == 0,
            r.unique_ips == 0,
            r.unique_urls == 0,
            r.unique_domains == 0,
            r.total_requests == 0,
            r.total_response_size == 0,
    {
        DBStats {
            total_records: 0,
            unique_ips: 0,
            unique_urls: 0,
            unique_domains: 0,
            total_requests: 0,
            total_response_size: 0,
        }
    }
}

/// `s` is strictly increasing.
pub open spec fn increasing(s: Seq<u64>) -> bool {
    forall|i: int, j: int| 0 <= i < j < s.len() ==> s[i] < s[j]
}

/// The key a record is indexed under by the IP index.
pub open spec fn ip_key(r: LogRecord) -> Option<Seq<char>> {
    Some(r.ip@)
}

/// The key a record is indexed under by the URL index.
pub open spec fn url_key(r: LogRecord) -> Option<Seq<char>> {
    Some(r.url@)
}

/// The key a record is indexed under by the status-code index.
pub open spec fn code_key(r: LogRecord) -> Option<u16> {
    r.status_code
}

/// A record of a failed request (status code 400 or above).
pub open spec fn is_error(r: LogRecord) -> bool {
    r.status_code is Some && r.status_code->0 >= 400
}

/// An index is exact: each record's id is listed under its key, and each list holds,
/// in increasing order, ids of stored records that have that key.
pub open spec fn index_ok<K>(lists: Map<K, Seq<u64>>, table: Map<u64, LogRecord>, key_of: spec_fn(LogRecord) -> Option<K>) -> bool {
    &&& forall|id: u64| #[trigger] table.contains_key(id) ==> (key_of(table[id]) matches Some(k) ==>
        lists.contains_key(k) && lists[k].contains(id))
    &&& forall|k: K| #[trigger] lists.contains_key(k) ==> increasing(lists[k])
    &&& forall|k: K, i: int| lists.contains_key(k) && 0 <= i < lists[k].len() ==>
        table.contains_key(#[trigger] lists[k][i]) && key_of(table[lists[k][i]]) == Some(k)
}

/// The error cache holds exactly the ids of the stored failed requests.
pub open spec fn cache_ok(flags: Map<u64, bool>, table: Map<u64, LogRecord>) -> bool {
    forall|id: u64| #[trigger] flags.contains_key(id) <==> (table.contains_key(id) && is_error(table[id]))
}

proof fn lemma_contains_push(t: Seq<u64>, v: u64, x: u64)
    ensures
        t.push(v).contains(x) <==> (t.contains(x) || x == v),
{
    if t.contains(x) {
        let i = choose|i: int| 0 <= i < t.len() && t[i] == x;
        assert(t.push(v)[i] == x);
    }
    if x == v {
        assert(t.push(v)[t.len() as int] == x);
    }
    if t.push(v).contains(x) {
        let i = choose|i: int| 0 <= i < t.len() + 1 && t.push(v)[i] == x;
        if i < t.len() {
            assert(t[i] == x);
        }
    }
}

#[verifier::spinoff_prover]
proof fn lemma_without(s: Seq<u64>, id: u64)
    ensures
        forall|x: u64| without(s, id).contains(x) <==> (s.contains(x) && x != id),
        increasing(s) ==> increasing(without(s, id)),
        increasing(s) && s.len() > 0 && without(s, id).len() > 0 ==> without(s, id).last() <= s.last(),
        without(s, id).len() <= s.len(),
    decreases s.len(),
{
    if s.len() == 0 {
        assert(without(s, id) == s);
        assert forall|x: u64| without(s, id).contains(x) <==> (s.contains(x) && x != id) by {
            assert(!s.contains(x));
        }
    }
    if s.len() > 0 {
        let t = s.drop_last();
        lemma_without(t, id);
        let w = without(t, id);
        assert(s =~= t.push(s.last()));
        assert forall|x: u64| without(s, id).contains(x) <==> (s.contains(x) && x != id) by {
            lemma_contains_push(t, s.last(), x);
            assert(w.contains(x) <==> (t.contains(x) && x != id));
            if s.last() != id {
                lemma_contains_push(w, s.last(), x);
            }
        }
        if increasing(s) {
            assert(increasing(t));
            if s.last() != id {
                assert forall|i: int, j: int| 0 <= i < j < without(s, id).len() implies
                    without(s, id)[i] < without(s, id)[j] by {
                    if j == w.len() {
                        assert(w.contains(w[i]));
                        assert(t.contains(w[i]));
                        let m = choose|m: int| 0 <= m < t.len() && t[m] == w[i];
                        assert(s[m] < s[s.len() - 1]);
                    }
                }
            }
            if w.len() > 0 {
                assert(w.last() <= t.last());
                assert(t.last() < s.last());
            }
        }
    }
}

proof fn lemma_index_add<K>(
    lists: Map<K, Seq<u64>>,
    table: Map<u64, LogRecord>,
    key_of: spec_fn(LogRecord) -> Option<K>,
    id: u64,
    rec: LogRecord,
)
    requires
        index_ok(lists, table, key_of),
        forall|x: u64| table.contains_key(x) ==> x < id,
    ensures
        index_ok(
            match key_of(rec) {
                Some(k) => appended(lists, k, id),
                None => lists,
            },
            table.insert(id, rec),
            key_of,
        ),
{
    let t2 = table.insert(id, rec);
    let l2 = match key_of(rec) {
        Some(k) => appended(lists, k, id),
        None => lists,
    };
    assert(!table.contains_key(id));
    assert forall|x: u64| #[trigger] t2.contains_key(x) implies (key_of(t2[x]) matches Some(k) ==>
        l2.contains_key(k) && l2[k].contains(x)) by {
        if x == id {
            if let Some(k) = key_of(rec) {
                assert(l2[k].last() == id);
            }
        } else if let Some(k) = key_of(t2[x]) {
            assert(lists[k].contains(x));
            let i = choose|i: int| 0 <= i < lists[k].len() && lists[k][i] == x;
            if key_of(rec) == Some(k) {
                assert(l2[k][i] == x);
            }
        }
    }
    assert forall|k: K| #[trigger] l2.contains_key(k) implies increasing(l2[k]) by {
        if key_of(rec) == Some(k) && lists.contains_key(k) {
            assert forall|i: int, j: int| 0 <= i < j < l2[k].len() implies l2[k][i] < l2[k][j] by {
                if j == lists[k].len() {
                    assert(table.contains_key(lists[k][i]));
                }
            }
        }
    }
    assert forall|k: K, i: int| l2.contains_key(k) && 0 <= i < l2[k].len() implies
        t2.contains_key(#[trigger] l2[k][i]) && key_of(t2[l2[k][i]]) == Some(k) by {
        if key_of(rec) == Some(k) && i == l2[k].len() - 1 {
        } else {
            assert(l2[k][i] == lists[k][i]);
            assert(table.contains_key(lists[k][i]));
        }
    }
}

proof fn lemma_index_remove<K>(
    lists: Map<K, Seq<u64>>,
    table: Map<u64, LogRecord>,
    key_of: spec_fn(LogRecord) -> Option<K>,
    id: u64,
)
    requires
        index_ok(lists, table, key_of),
        table.contains_key(id),
    ensures
        index_ok(
            match key_of(table[id]) {
                Some(k) => removed_id(lists, k, id),
                None => lists,
            },
            table.remove(id),
            key_of,
        ),
{
    let t2 = table.remove(id);
    let l2 = match key_of(table[id]) {
        Some(k) => removed_id(lists, k, id),
        None => lists,
    };
    if let Some(k0) = key_of(table[id]) {
        lemma_without(lists[k0], id);
    }
    assert forall|x: u64| #[trigger] t2.contains_key(x) implies (key_of(t2[x]) matches Some(k) ==>
        l2.contains_key(k) && l2[k].contains(x)) by {
        if let Some(k) = key_of(t2[x]) {
            assert(table.contains_key(x));
            assert(lists[k].contains(x));
        }
    }
    assert forall|k: K| #[trigger] l2.contains_key(k) implies increasing(l2[k]) by {
        assert(lists.contains_key(k));
    }
    assert forall|k: K, i: int| l2.contains_key(k) && 0 <= i < l2[k].len() implies
        t2.contains_key(#[trigger] l2[k][i]) && key_of(t2[l2[k][i]]) == Some(k) by {
        let x = l2[k][i];
        assert(l2[k].contains(x));
        if key_of(table[id]) == Some(k) {
            assert(lists[k].contains(x) && x != id);
        } else {
            assert(l2[k] == lists[k]);
        }
        let j = choose|j: int| 0 <= j < lists[k].len() && lists[k][j] == x;
        assert(table.contains_key(lists[k][j]));
    }
}

/// The eviction step: nothing is removed below the limit; at or above it, the
/// oldest `min(limit / 2, len)` stored ids are removed.
pub open spec fn evicts(o: Map<u64, LogRecord>, e: Set<u64>, limit: usize) -> bool {
    if o.len() < limit {
        e == Set::<u64>::empty()
    } else {
        evicts_now(o, e, limit)
    }
}

/// The number of bytes a record adds to the response-size counter.
pub open spec fn size_of_response(r: LogRecord) -> int {
    match r.response_size {
        Some(s) => s as int,
        None => 0,
    }
}

/// One eviction pass over a table at or above the limit: the oldest
/// `min(limit / 2, len)` stored ids are chosen (every chosen id is below every kept one).
pub open spec fn evicts_now(o: Map<u64, LogRecord>, e: Set<u64>, limit: usize) -> bool {
    &&& e.finite()
    &&& e.subset_of(o.dom())
    &&& e.len() == (if limit / 2 < o.len() { (limit / 2) as nat } else { o.len() })
    &&& forall|x: u64, y: u64| #[trigger] e.contains(x) && #[trigger] o.contains_key(y) && !e.contains(y) ==> x < y
}

/// The stored ids below `c`.
pub open spec fn ids_below(o: Map<u64, LogRecord>, c: u64) -> Set<u64> {
    o.dom().filter(|x: u64| x < c)
}

/// The records listed under `k` by an index: the first 1000, in the index's order.
pub open spec fn found<K>(lists: Map<K, Seq<u64>>, table: Map<u64, LogRecord>, k: K) -> Seq<LogRecord> {
    if lists.contains_key(k) {
        first_n(lists[k], 1000).map_values(|id: u64| table[id])
    } else {
        Seq::empty()
    }
}

/// Keys with the lengths of their lists: `s` lists each key of `m` once, with the
/// number of ids under it.
pub open spec fn sizes_listed<K>(s: Seq<(K, usize)>, m: Map<K, Seq<u64>>) -> bool {
    &&& lists_keys(s.map_values(|p: (K, usize)| p.0), m)
    &&& forall|i: int| 0 <= i < s.len() ==> #[trigger] s[i].1 == m[s[i].0].len()
}

/// `(text, count)` pairs, with each text taken by its characters.
pub open spec fn pair_view(v: Seq<(String, usize)>) -> Seq<(Seq<char>, usize)> {
    v.map_values(|p: (String, usize)| (p.0@, p.1))
}

/// The keys of a string index with their list lengths, most first: among the first
/// 1000 keys in iteration order, the `limit` with the longest lists.
fn top_sizes(m: &DashMap<String, Vec<u64>>, limit: usize) -> (r: Vec<(String, usize)>)
    ensures
        exists|s: Seq<(Seq<char>, usize)>| sizes_listed(s, id_lists(*m))
            && pair_view(r@) == first_n(sort_desc(first_n(s, 1000)), limit as nat),
{
    let mut sizes = index_sizes(m);
    let ghost s = pair_view(sizes@);
    proof {
        assert(s.map_values(|p: (Seq<char>, usize)| p.0) =~= sizes@.map_values(|p: (String, usize)| p.0@));
        assert forall|i: int| 0 <= i < s.len() implies #[trigger] s[i].1 == id_lists(*m)[s[i].0].len() by {
            assert(sizes@[i].1 == id_lists(*m)[sizes@[i].0@].len());
        }
    }
    sizes.truncate(1000);
    assert(pair_view(sizes@) =~= first_n(s, 1000));
    let mut sorted = sort_pairs_desc(sizes);
    let ghost full = sorted@;
    sorted.truncate(limit);
    assert(pair_view(sorted@) =~= first_n(pair_view(full), limit as nat));
    assert(sizes_listed(s, id_lists(*m)));
    sorted
}

/// The records under `ks`, in order.
pub open spec fn records_at(t: Map<u64, LogRecord>, ks: Seq<u64>) -> Seq<LogRecord> {
    ks.map_values(|id: u64| t[id])
}

/// The IPs of `recs`, in order.
pub open spec fn ips_in(recs: Seq<LogRecord>) -> Seq<Seq<char>> {
    recs.map_values(|r: LogRecord| r.ip@)
}

/// The URLs of `recs`, in order.
pub open spec fn urls_in(recs: Seq<LogRecord>) -> Seq<Seq<char>> {
    recs.map_values(|r: LogRecord| r.url@)
}

/// The user agents of `recs`, in order; records without one are skipped.
pub open spec fn agents_in(recs: Seq<LogRecord>) -> Seq<Seq<char>>
    decreases recs.len(),
{
    if recs.len() == 0 {
        Seq::empty()
    } else {
        let a = agents_in(recs.drop_last());
        match recs.last().user_agent {
            Some(ua) => a.push(ua@),
            None => a,
        }
    }
}

proof fn lemma_agents_len(recs: Seq<LogRecord>)
    ensures
        agents_in(recs).len() <= recs.len(),
    decreases recs.len(),
{
    if recs.len() > 0 {
        lemma_agents_len(recs.drop_last());
    }
}

proof fn lemma_records_at_step(t: Map<u64, LogRecord>, ks: Seq<u64>, i: int)
    requires
        0 <= i < ks.len(),
    ensures
        records_at(t, ks.take(i + 1)) == records_at(t, ks.take(i)).push(t[ks[i]]),
        records_at(t, ks.take(i + 1)).drop_last() == records_at(t, ks.take(i)),
{
    assert(records_at(t, ks.take(i + 1)) =~= records_at(t, ks.take(i)).push(t[ks[i]]));
    assert(records_at(t, ks.take(i + 1)).drop_last() =~= records_at(t, ks.take(i)));
}

proof fn lemma_tally_step(a: Seq<Seq<char>>, x: Seq<char>)
    ensures
        tally(a.push(x)) == crate::table::bump(tally(a), x),
{
    assert(a.push(x).drop_last() =~= a);
}

/// The substrings looked for in the lower-cased log lines of failed requests.
pub open spec fn attack_patterns() -> Seq<Seq<char>> {
    seq![
        "admin"@,
        "wp-admin"@,
        "phpmyadmin"@,
        "config"@,
        "backup"@,
        "union select"@,
        "drop table"@,
        "insert into"@,
        "delete from"@,
        "script"@,
        "javascript"@,
        "eval("@,
        "document.cookie"@,
        ".."@,
        "~"@,
        "etc/passwd"@,
        "/proc/"@,
        "/sys/"@,
    ]
}

/// The attack patterns, in the order they are checked.
pub fn attack_pattern_list() -> (r: Vec<&'static str>)
    ensures
        r@.map_values(|s: &str| s@) == attack_patterns(),
{
    let r = vec![
        "admin",
        "wp-admin",
        "phpmyadmin",
        "config",
        "backup",
        "union select",
        "drop table",
        "insert into",
        "delete from",
        "script",
        "javascript",
        "eval(",
        "document.cookie",
        "..",
        "~",
        "etc/passwd",
        "/proc/",
        "/sys/",
    ];
    assert(r@.map_values(|s: &str| s@) =~= attack_patterns());
    r
}

/// The substrings looked for in the lower-cased log lines of one IP's requests: scanner names, then the attack patterns.
pub open spec fn ip_patterns() -> Seq<Seq<char>> {
    seq![
        "sqlmap"@,
        "nikto"@,
        "nmap"@,
        "dirb"@,
        "gobuster"@,
        "wfuzz"@,
        "admin"@,
        "wp-admin"@,
        "phpmyadmin"@,
        "config"@,
        "backup"@,
        "union select"@,
        "drop table"@,
        "insert into"@,
        "delete from"@,
        "script"@,
        "javascript"@,
        "eval("@,
        "document.cookie"@,
        ".."@,
        "~"@,
        "etc/passwd"@,
        "/proc/"@,
        "/sys/"@,
    ]
}

/// The per-IP patterns, in the order they are checked.
pub fn ip_pattern_list() -> (r: Vec<&'static str>)
    ensures
        r@.map_values(|s: &str| s@) == ip_patterns(),
{
    let r = vec![
        "sqlmap",
        "nikto",
        "nmap",
        "dirb",
        "gobuster",
        "wfuzz",
        "admin",
        "wp-admin",
        "phpmyadmin",
        "config",
        "backup",
        "union select",
        "drop table",
        "insert into",
        "delete from",
        "script",
        "javascript",
        "eval(",
        "document.cookie",
        "..",
        "~",
        "etc/passwd",
        "/proc/",
        "/sys/",
    ];
    assert(r@.map_values(|s: &str| s@) =~= ip_patterns());
    r
}

/// The number of `recs` whose lower-cased log line contains `p`.
pub open spec fn mention_count(recs: Seq<LogRecord>, p: Seq<char>) -> nat
    decreases recs.len(),
{
    if recs.len() == 0 {
        0
    } else {
        mention_count(recs.drop_last(), p)
            + if contains_sub(lowercase(recs.last().log_line@), p) { 1nat } else { 0nat }
    }
}

proof fn lemma_mention_count_len(recs: Seq<LogRecord>, p: Seq<char>)
    ensures
        mention_count(recs, p) <= recs.len(),
    decreases recs.len(),
{
    if recs.len() > 0 {
        lemma_mention_count_len(recs.drop_last(), p);
    }
}

/// Each of `pats` with the number of `recs` that mention it, in pattern order,
/// leaving out the patterns no record mentions.
pub open spec fn mentioned(recs: Seq<LogRecord>, pats: Seq<Seq<char>>) -> Seq<(Seq<char>, usize)>
    decreases pats.len(),
{
    if pats.len() == 0 {
        Seq::empty()
    } else {
        let m = mentioned(recs, pats.drop_last());
        let c = mention_count(recs, pats.last());
        if c > 0 {
            m.push((pats.last(), c as usize))
        } else {
            m
        }
    }
}

/// The patterns of `pats` found in each record's lower-cased log line, record after record.
pub open spec fn line_hits(recs: Seq<LogRecord>, pats: Seq<Seq<char>>) -> Seq<Seq<char>>
    decreases recs.len(),
{
    if recs.len() == 0 {
        Seq::empty()
    } else {
        line_hits(recs.drop_last(), pats) + hits(lowercase(recs.last().log_line@), pats)
    }
}

/// A user agent that marks a crawler: lower-cased, it contains "bot", "crawler" or "spider".
pub open spec fn is_bot_agent(ua: Option<String>) -> bool {
    match ua {
        Some(u) => {
            let l = lowercase(u@);
            contains_sub(l, "bot"@) || contains_sub(l, "crawler"@) || contains_sub(l, "spider"@)
        },
        None => false,
    }
}

/// The records of `recs` made by crawlers, in order.
pub open spec fn bot_records(recs: Seq<LogRecord>) -> Seq<LogRecord>
    decreases recs.len(),
{
    if recs.len() == 0 {
        Seq::empty()
    } else {
        let b = bot_records(recs.drop_last());
        if is_bot_agent(recs.last().user_agent) {
            b.push(recs.last())
        } else {
            b
        }
    }
}

/// Bot requests are the records whose lower-cased User-Agent contains "bot",
/// "crawler" or "spider": one more record adds itself to them exactly then.
pub proof fn law_bot_records_by_agent(recs: Seq<LogRecord>, r: LogRecord)
    ensures
        bot_records(recs.push(r)) == (if r.user_agent is Some && {
            let l = lowercase(r.user_agent->0@);
            contains_sub(l, "bot"@) || contains_sub(l, "crawler"@) || contains_sub(l, "spider"@)
        } {
            bot_records(recs).push(r)
        } else {
            bot_records(recs)
        }),
{
    assert(recs.push(r).drop_last() =~= recs);
}

proof fn lemma_bot_records_len(recs: Seq<LogRecord>)
    ensures
        bot_records(recs).len() <= recs.len(),
    decreases recs.len(),
{
    if recs.len() > 0 {
        lemma_bot_records_len(recs.drop_last());
    }
}

/// Whether a user agent marks a crawler.
fn bot_agent(ua: &Option<String>) -> (r: bool)
    ensures
        r == is_bot_agent(*ua),
{
    match ua {
        Some(u) => {
            let l = chars_of(to_lowercase(u.as_str()).as_str());
            let bot = chars_of("bot");
            let crawler = chars_of("crawler");
            let spider = chars_of("spider");
            contains(l.as_slice(), bot.as_slice()) || contains(l.as_slice(), crawler.as_slice())
                || contains(l.as_slice(), spider.as_slice())
        },
        None => false,
    }
}

/// The ids of the stored failed requests.
pub open spec fn error_set(t: Map<u64, LogRecord>) -> Set<u64> {
    t.dom().filter(|id: u64| is_error(t[id]))
}

/// The IPs of the stored failed requests.
pub open spec fn error_ips(t: Map<u64, LogRecord>) -> Set<Seq<char>> {
    error_set(t).map(|id: u64| t[id].ip@)
}

/// The ids of the stored failed requests whose status code is among `cs`.
pub open spec fn errors_with(t: Map<u64, LogRecord>, cs: Seq<u16>) -> Set<u64> {
    t.dom().filter(|id: u64| is_error(t[id]) && cs.contains(t[id].status_code->0))
}

/// Adding the list of a status code to a running count of failed requests: the list
/// holds exactly the stored requests with that code, each once.
proof fn lemma_errors_with_step(
    t: Map<u64, LogRecord>,
    codes: Map<u16, Seq<u64>>,
    cs: Seq<u16>,
    c: u16,
)
    requires
        t.dom().finite(),
        index_ok(codes, t, |r: LogRecord| code_key(r)),
        codes.contains_key(c),
        !cs.contains(c),
    ensures
        errors_with(t, cs).finite(),
        errors_with(t, cs.push(c)).finite(),
        errors_with(t, cs).len() <= t.len(),
        errors_with(t, cs.push(c)).len() <= t.len(),
        errors_with(t, cs.push(c)).len() == errors_with(t, cs).len()
            + (if c >= 400 { codes[c].len() } else { 0 }),
{
    broadcast use vstd::seq_lib::seq_to_set_is_finite;
    let a = errors_with(t, cs);
    let b = errors_with(t, cs.push(c));
    vstd::set_lib::lemma_len_subset(a, t.dom());
    vstd::set_lib::lemma_len_subset(b, t.dom());
    let l = codes[c];
    assert forall|x: u16| cs.push(c).contains(x) <==> (cs.contains(x) || x == c) by {
        if cs.push(c).contains(x) {
            let i = choose|i: int| 0 <= i < cs.len() + 1 && cs.push(c)[i] == x;
            if i < cs.len() {
                assert(cs[i] == x);
            }
        }
        if cs.contains(x) {
            let i = choose|i: int| 0 <= i < cs.len() && cs[i] == x;
            assert(cs.push(c)[i] == x);
        }
        if x == c {
            assert(cs.push(c)[cs.len() as int] == x);
        }
    }
    if c >= 400 {
        assert(l.no_duplicates()) by {
            assert forall|i: int, j: int| 0 <= i < l.len() && 0 <= j < l.len() && i != j implies l[i] != l[j] by {
                assert(increasing(l));
                if i < j {
                    assert(l[i] < l[j]);
                } else {
                    assert(l[j] < l[i]);
                }
            }
        }
        l.unique_seq_to_set();
        let ls = l.to_set();
        assert forall|id: u64| ls.contains(id) <==> (t.contains_key(id) && t[id].status_code == Some(c)) by {
            if ls.contains(id) {
                let i = choose|i: int| 0 <= i < l.len() && l[i] == id;
                assert(t.contains_key(l[i]) && code_key(t[l[i]]) == Some(c));
            }
            if t.contains_key(id) && t[id].status_code == Some(c) {
                assert(code_key(t[id]) == Some(c));
                assert(codes[c].contains(id));
            }
        }
        assert(b =~= a + ls);
        assert(a.disjoint(ls));
        vstd::set_lib::lemma_set_disjoint_lens(a, ls);
    } else {
        assert(b =~= a);
    }
}

/// Integer division rounding toward zero, as Rust's `/` on signed integers.
pub open spec fn div_toward_zero(a: int, b: int) -> int {
    let q = (if a >= 0 { a } else { -a }) / (if b >= 0 { b } else { -b });
    if (a >= 0) == (b >= 0) { q } else { -q }
}

/// `a / b` on `i64`, rounding toward zero.
fn div_i64(a: i64, b: i64) -> (r: i64)
    requires
        b != 0,
        !(a == i64::MIN && b == -1),
    ensures
        r == div_toward_zero(a as int, b as int),
{
    if b > 0 {
        let q = a / b;
        if a >= 0 {
            assert(q as int == (a as int) / (b as int));
        } else {
            assert(q as int == -((-a) as int / (b as int)));
        }
        q
    } else if b == i64::MIN {
        if a == i64::MIN { 1 } else { 0 }
    } else {
        let q = a / (-b);
        if a >= 0 {
            assert(q as int == (a as int) / ((-b) as int));
        } else {
            assert(q as int == -((-a) as int / ((-b) as int)));
            if b != -1 {
                let ghost na = -(a as int);
                let ghost nb = -(b as int);
                assert(na / nb <= na / 2) by (nonlinear_arith)
                    requires
                        nb >= 2,
                        na >= 0,
                {
                    vstd::arithmetic::div_mod::lemma_div_is_ordered_by_denominator(na, 2, nb);
                }
            }
        }
        -q
    }
}

/// Counting one more `b` in a list of distinct values with their counts, at the
/// position where `b` is or belongs.
proof fn lemma_count_step(r: Seq<(i64, usize)>, ks: Seq<i64>, b: i64, pos: int)
    requires
        counted_ascending(r, ks),
        0 <= pos <= r.len(),
        forall|m: int| 0 <= m < pos ==> r[m].0 < b,
        forall|m: int| pos <= m < r.len() ==> r[m].0 >= b,
        pos < r.len() && r[pos].0 == b ==> r[pos].1 < usize::MAX,
    ensures
        pos < r.len() && r[pos].0 == b ==> counted_ascending(r.update(pos, (b, (r[pos].1 + 1) as usize)), ks.push(b)),
        !(pos < r.len() && r[pos].0 == b) ==> counted_ascending(r.insert(pos, (b, 1usize)), ks.push(b)),
{
    broadcast use vstd::seq_lib::group_to_multiset_ensures;
    broadcast use vstd::multiset::group_multiset_axioms;
    let ks2 = ks.push(b);
    assert forall|k: i64| ks2.contains(k) <==> (ks.contains(k) || k == b) by {
        if ks2.contains(k) {
            let i = choose|i: int| 0 <= i < ks2.len() && ks2[i] == k;
            if i < ks.len() {
                assert(ks[i] == k);
            }
        }
        if ks.contains(k) {
            let i = choose|i: int| 0 <= i < ks.len() && ks[i] == k;
            assert(ks2[i] == k);
        }
        if k == b {
            assert(ks2[ks.len() as int] == k);
        }
    }
    if pos < r.len() && r[pos].0 == b {
        let r2 = r.update(pos, (b, (r[pos].1 + 1) as usize));
        assert forall|i: int| 0 <= i < r2.len() implies #[trigger] r2[i].1 == ks2.to_multiset().count(r2[i].0) by {
            if i != pos {
                assert(r[i].0 != b) by {
                    if i < pos {
                        assert(r[i].0 < r[pos].0);
                    } else {
                        assert(r[pos].0 < r[i].0);
                    }
                }
            }
        }
        assert forall|k: i64| ks2.contains(k) implies exists|i: int| 0 <= i < r2.len() && #[trigger] r2[i].0 == k by {
            if k == b {
                assert(r2[pos].0 == k);
            } else {
                assert(ks.contains(k));
                let i = choose|i: int| 0 <= i < r.len() && #[trigger] r[i].0 == k;
                assert(r2[i].0 == k);
            }
        }
        assert forall|i: int| 0 <= i < r2.len() implies ks2.contains(#[trigger] r2[i].0) by {
            assert(ks.contains(r[i].0));
        }
    } else {
        let r2 = r.insert(pos, (b, 1usize));
        assert(!ks.contains(b)) by {
            if ks.contains(b) {
                let i = choose|i: int| 0 <= i < r.len() && #[trigger] r[i].0 == b;
                if i > pos {
                    assert(r[pos].0 < r[i].0);
                }
            }
        }
        assert(ks.to_multiset().count(b) == 0);
        assert forall|i: int, j: int| 0 <= i < j < r2.len() implies r2[i].0 < r2[j].0 by {
            if j == pos {
            } else if i == pos {
                assert(r2[j] == r[j - 1]);
                if j - 1 > pos {
                    assert(r[pos].0 < r[j - 1].0);
                }
            } else if i < pos && j > pos {
                assert(r2[j] == r[j - 1]);
            } else if i > pos {
                assert(r2[i] == r[i - 1] && r2[j] == r[j - 1]);
            }
        }
        assert forall|i: int| 0 <= i < r2.len() implies #[trigger] r2[i].1 == ks2.to_multiset().count(r2[i].0) by {
            if i < pos {
                assert(r2[i] == r[i]);
            } else if i > pos {
                assert(r2[i] == r[i - 1]);
                assert(r[i - 1].0 != b);
            }
        }
        assert forall|i: int| 0 <= i < r2.len() implies ks2.contains(#[trigger] r2[i].0) by {
            if i < pos {
                assert(r2[i] == r[i]);
                assert(ks.contains(r[i].0));
            } else if i > pos {
                assert(r2[i] == r[i - 1]);
                assert(ks.contains(r[i - 1].0));
            }
        }
        assert forall|k: i64| ks2.contains(k) implies exists|i: int| 0 <= i < r2.len() && #[trigger] r2[i].0 == k by {
            if k == b {
                assert(r2[pos].0 == k);
            } else {
                assert(ks.contains(k));
                let i = choose|i: int| 0 <= i < r.len() && #[trigger] r[i].0 == k;
                if i < pos {
                    assert(r2[i].0 == k);
                } else {
                    assert(r2[i + 1].0 == k);
                }
            }
        }
    }
}

/// The interval numbers of `recs` for intervals of `width` seconds, in order.
pub open spec fn intervals_of(recs: Seq<LogRecord>, width: i64) -> Seq<i64> {
    recs.map_values(|r: LogRecord| div_toward_zero(r.timestamp as int, width as int) as i64)
}

/// `r` lists the distinct values of `ks` in increasing order, each with the number
/// of times it occurs in `ks`.
pub open spec fn counted_ascending(r: Seq<(i64, usize)>, ks: Seq<i64>) -> bool {
    &&& forall|i: int, j: int| 0 <= i < j < r.len() ==> r[i].0 < r[j].0
    &&& forall|i: int| 0 <= i < r.len() ==> ks.contains(#[trigger] r[i].0)
    &&& forall|i: int| 0 <= i < r.len() ==> #[trigger] r[i].1 == ks.to_multiset().count(r[i].0)
    &&& forall|k: i64| ks.contains(k) ==> exists|i: int| 0 <= i < r.len() && #[trigger] r[i].0 == k
}

/// The sum of the counts of `r`.
pub open spec fn total_counted(r: Seq<(i64, usize)>) -> int
    decreases r.len(),
{
    if r.len() == 0 { 0 } else { total_counted(r.drop_last()) + r.last().1 }
}

proof fn lemma_total_update(r: Seq<(i64, usize)>, i: int, p: (i64, usize))
    requires
        0 <= i < r.len(),
    ensures
        total_counted(r.update(i, p)) == total_counted(r) - r[i].1 + p.1,
    decreases r.len(),
{
    let u = r.update(i, p);
    if i < r.len() - 1 {
        lemma_total_update(r.drop_last(), i, p);
        assert(u.drop_last() =~= r.drop_last().update(i, p));
    } else {
        assert(u.drop_last() =~= r.drop_last());
    }
}

proof fn lemma_total_remove(r: Seq<(i64, usize)>, i: int)
    requires
        0 <= i < r.len(),
    ensures
        total_counted(r.remove(i)) == total_counted(r) - r[i].1,
    decreases r.len(),
{
    let u = r.remove(i);
    if i < r.len() - 1 {
        lemma_total_remove(r.drop_last(), i);
        assert(u.drop_last() =~= r.drop_last().remove(i));
        assert(u.last() == r.last());
    } else {
        assert(u =~= r.drop_last());
    }
}

/// A count by interval counts every record once: the counts of a list that
/// `counted_ascending` describes add up to the number of values counted.
pub proof fn law_counts_add_up(r: Seq<(i64, usize)>, ks: Seq<i64>)
    requires
        counted_ascending(r, ks),
    ensures
        total_counted(r) == ks.len(),
    decreases ks.len(),
{
    broadcast use vstd::seq_lib::group_to_multiset_ensures;
    if ks.len() == 0 {
        if r.len() > 0 {
            assert(ks.contains(r[0].0));
        }
    } else {
        let x = ks.last();
        let k2 = ks.drop_last();
        assert(k2 =~= ks.remove(ks.len() - 1));
        assert(k2.to_multiset() =~= ks.to_multiset().remove(x));
        assert(ks.contains(x)) by { assert(ks[ks.len() - 1] == x); }
        let i = choose|i: int| 0 <= i < r.len() && #[trigger] r[i].0 == x;
        assert(r[i].1 == ks.to_multiset().count(x));
        assert(r[i].1 >= 1);
        if r[i].1 == 1 {
            let r2 = r.remove(i);
            lemma_total_remove(r, i);
            assert(k2.to_multiset().count(x) == 0);
            assert forall|a: int, b: int| 0 <= a < b < r2.len() implies r2[a].0 < r2[b].0 by {
                let a1 = if a < i { a } else { a + 1 };
                let b1 = if b < i { b } else { b + 1 };
                assert(r2[a] == r[a1] && r2[b] == r[b1]);
            }
            assert forall|a: int| 0 <= a < r2.len() implies k2.contains(#[trigger] r2[a].0)
                && r2[a].1 == k2.to_multiset().count(r2[a].0) by {
                let a1 = if a < i { a } else { a + 1 };
                assert(r2[a] == r[a1]);
                assert(r[a1].0 != x);
                assert(ks.contains(r[a1].0));
                assert(k2.to_multiset().count(r2[a].0) == ks.to_multiset().count(r2[a].0));
            }
            assert forall|k: i64| k2.contains(k) implies exists|a: int| 0 <= a < r2.len() && #[trigger] r2[a].0 == k by {
                assert(k2.to_multiset().count(k) > 0);
                assert(k != x);
                assert(ks.to_multiset().count(k) > 0);
                assert(ks.contains(k));
                let j = choose|j: int| 0 <= j < r.len() && #[trigger] r[j].0 == k;
                assert(j != i);
                let a = if j < i { j } else { j - 1 };
                assert(r2[a] == r[j]);
            }
            law_counts_add_up(r2, k2);
        } else {
            let r2 = r.update(i, (x, (r[i].1 - 1) as usize));
            lemma_total_update(r, i, (x, (r[i].1 - 1) as usize));
            assert forall|a: int| 0 <= a < r2.len() implies k2.contains(#[trigger] r2[a].0)
                && r2[a].1 == k2.to_multiset().count(r2[a].0) by {
                if a != i {
                    assert(r2[a] == r[a]);
                    assert(ks.contains(r[a].0));
                    assert(r[a].0 != x);
                    assert(k2.to_multiset().count(r2[a].0) == ks.to_multiset().count(r2[a].0));
                } else {
                    assert(k2.to_multiset().count(x) > 0);
                }
            }
            assert forall|k: i64| k2.contains(k) implies exists|a: int| 0 <= a < r2.len() && #[trigger] r2[a].0 == k by {
                assert(k2.to_multiset().count(k) > 0);
                assert(ks.to_multiset().count(k) > 0);
                assert(ks.contains(k));
                let j = choose|j: int| 0 <= j < r.len() && #[trigger] r[j].0 == k;
                assert(r2[j].0 == k);
            }
            law_counts_add_up(r2, k2);
        }
    }
}

/// A suspicious request: it failed, or its lower-cased log line mentions an attack pattern.
pub open spec fn is_suspicious(r: LogRecord) -> bool {
    is_error(r) || hits(lowercase(r.log_line@), attack_patterns()).len() > 0
}

/// The suspicious records of `recs`, in order.
pub open spec fn suspicious_records(recs: Seq<LogRecord>) -> Seq<LogRecord>
    decreases recs.len(),
{
    if recs.len() == 0 {
        Seq::empty()
    } else {
        let s = suspicious_records(recs.drop_last());
        if is_suspicious(recs.last()) { s.push(recs.last()) } else { s }
    }
}

proof fn lemma_suspicious_len(recs: Seq<LogRecord>)
    ensures
        suspicious_records(recs).len() <= recs.len(),
    decreases recs.len(),
{
    if recs.len() > 0 {
        lemma_suspicious_len(recs.drop_last());
    }
}

/// Whether `rec` is suspicious; `pats` are the attack patterns.
fn suspicious(rec: &LogRecord, pats: &Vec<&'static str>) -> (r: bool)
    requires
        pats@.map_values(|s: &str| s@) == attack_patterns(),
    ensures
        r == is_suspicious(*rec),
{
    let failed = match rec.status_code {
        Some(c) => c >= 400,
        None => false,
    };
    if failed {
        return true;
    }
    let line = chars_of(to_lowercase(rec.log_line.as_str()).as_str());
    let found = find_hits(line.as_slice(), pats);
    found.len() > 0
}

/// A record created more than twenty minutes before `now`: more than 1200 whole
/// seconds apart on the Unix-epoch clock (instants before the epoch never count).
pub open spec fn record_stale(r: LogRecord, now: SystemTime) -> bool {
    stale_at(epoch_secs(r.created_at), epoch_secs(now))
}

/// A creation second `c` lies more than 1200 seconds before the second `n`.
pub open spec fn stale_at(c: Option<u64>, n: Option<u64>) -> bool {
    match (c, n) {
        (Some(c), Some(n)) => n > c + 1200,
        _ => false,
    }
}

/// The ids of the records of `t` created more than twenty minutes before `now`.
pub open spec fn stale_ids(t: Map<u64, LogRecord>, now: SystemTime) -> Set<u64> {
    t.dom().filter(|id: u64| record_stale(t[id], now))
}

/// The records `t` after the automatic cleanup at `now`: when it is on and there are
/// more than 10 000 records, those older than twenty minutes are removed.
pub open spec fn cleaned(t: Map<u64, LogRecord>, on: bool, now: SystemTime) -> Map<u64, LogRecord> {
    if on && t.len() > 10_000 { t.remove_keys(stale_ids(t, now)) } else { t }
}

/// `r` was created no earlier than the second `m` of the Unix-epoch clock (or before
/// the epoch, where it is never stale).
pub open spec fn created_from(r: LogRecord, m: u64) -> bool {
    match epoch_secs(r.created_at) {
        Some(c) => m <= c,
        None => true,
    }
}

/// Fast in-memory record store with indexes by IP, URL and status code.
#[derive(Debug)]
pub struct MemoryDB {
    records: DashMap<u64, LogRecord>,
    next_id: u64,
    ip_index: DashMap<String, Vec<u64>>,
    url_index: DashMap<String, Vec<u64>>,
    status_code_index: DashMap<u16, Vec<u64>>,
    error_records_cache: DashMap<u64, bool>,
    stats: DBStats,
    max_records: usize,
    auto_cleanup: bool,
    oldest_secs: u64,
}

impl MemoryDB {
    /// The stored records, by id.
    pub closed spec fn table(&self) -> Map<u64, LogRecord> {
        record_table(self.records)
    }

    /// The ids stored per IP, in insertion order.
    pub closed spec fn ips(&self) -> Map<Seq<char>, Seq<u64>> {
        id_lists(self.ip_index)
    }

    /// The ids stored per URL, in insertion order.
    pub closed spec fn urls(&self) -> Map<Seq<char>, Seq<u64>> {
        id_lists(self.url_index)
    }

    /// The ids stored per status code, in insertion order.
    pub closed spec fn codes(&self) -> Map<u16, Seq<u64>> {
        code_lists(self.status_code_index)
    }

    /// The ids of stored failed requests.
    pub closed spec fn error_ids(&self) -> Map<u64, bool> {
        id_flags(self.error_records_cache)
    }

    /// The id the next record will get.
    pub closed spec fn next_id(&self) -> u64 {
        self.next_id
    }

    /// The number of records above which the oldest half is evicted.
    pub closed spec fn limit(&self) -> usize {
        self.max_records
    }

    /// Whether records older than twenty minutes are swept away once there are more
    /// than 10 000.
    pub closed spec fn cleanup_on(&self) -> bool {
        self.auto_cleanup
    }

    /// The running counters.
    pub closed spec fn counters(&self) -> DBStats {
        self.stats
    }

    /// Every index and the error cache agree with the stored records; ids are
    /// handed out in increasing order; counters count every record ever inserted.
    pub closed spec fn wf(&self) -> bool {
        &&& self.next_id >= 1
        &&& self.table().dom().finite()
        &&& forall|id: u64| #[trigger] self.table().contains_key(id) ==> id < self.next_id
        &&& index_ok(self.ips(), self.table(), |r: LogRecord| ip_key(r))
        &&& index_ok(self.urls(), self.table(), |r: LogRecord| url_key(r))
        &&& index_ok(self.codes(), self.table(), |r: LogRecord| code_key(r))
        &&& cache_ok(self.error_ids(), self.table())
        &&& self.stats.total_records == self.next_id - 1
        &&& self.stats.total_requests == self.next_id - 1
        &&& self.stats.unique_ips == 0
        &&& self.stats.unique_urls == 0
        &&& self.stats.unique_domains == 0
        &&& forall|id: u64| #[trigger] self.table().contains_key(id) ==> created_from(self.table()[id], self.oldest_secs)
    }

    /// Inserting `r` neither exhausts the ids nor overflows a counter.
    pub open spec fn can_insert(&self, r: LogRecord) -> bool {
        &&& self.next_id() < u64::MAX
        &&& self.counters().total_records < usize::MAX
        &&& self.counters().total_response_size + size_of_response(r) <= u64::MAX
    }

    /// An empty store, holding at most 10 000 000 records before eviction.
    pub fn new() -> (r: Self)
        ensures
            r.wf(),
            r.table() == Map::<u64, LogRecord>::empty(),
            r.next_id() == 1,
            r.limit() == 10_000_000,
            r.cleanup_on(),
            r.ips() == Map::<Seq<char>, Seq<u64>>::empty(),
            r.urls() == Map::<Seq<char>, Seq<u64>>::empty(),
            r.codes() == Map::<u16, Seq<u64>>::empty(),
            r.counters().total_records == 0,
            r.counters().total_requests == 0,
            r.counters().total_response_size == 0,
    {
        let r = MemoryDB {
            records: records_new(),
            next_id: 1,
            ip_index: index_new(),
            url_index: index_new(),
            status_code_index: codes_new(),
            error_records_cache: flags_new(),
            stats: DBStats::new(),
            max_records: 10_000_000,
            auto_cleanup: true,
            oldest_secs: u64::MAX,
        };
        assert(r.table() =~= Map::<u64, LogRecord>::empty());
        assert(r.table().dom().finite());
        assert(r.ips() =~= Map::<Seq<char>, Seq<u64>>::empty());
        assert(r.urls() =~= Map::<Seq<char>, Seq<u64>>::empty());
        assert(r.codes() =~= Map::<u16, Seq<u64>>::empty());
        assert(r.error_ids() =~= Map::<u64, bool>::empty());
        r
    }

    /// Removes record `id`, just taken out of the table, from every index.
    fn remove_from_indexes(&mut self, id: u64, rec: &LogRecord, Ghost(t0): Ghost<Map<u64, LogRecord>>)
        requires
            t0.contains_key(id),
            t0[id] == *rec,
            old(self).table() == t0.remove(id),
            index_ok(old(self).ips(), t0, |r: LogRecord| ip_key(r)),
            index_ok(old(self).urls(), t0, |r: LogRecord| url_key(r)),
            index_ok(old(self).codes(), t0, |r: LogRecord| code_key(r)),
            cache_ok(old(self).error_ids(), t0),
        ensures
            index_ok(final(self).ips(), final(self).table(), |r: LogRecord| ip_key(r)),
            index_ok(final(self).urls(), final(self).table(), |r: LogRecord| url_key(r)),
            index_ok(final(self).codes(), final(self).table(), |r: LogRecord| code_key(r)),
            cache_ok(final(self).error_ids(), final(self).table()),
            final(self).table() == old(self).table(),
            final(self).next_id == old(self).next_id,
            final(self).stats == old(self).stats,
            final(self).max_records == old(self).max_records,
            final(self).auto_cleanup == old(self).auto_cleanup,
            final(self).oldest_secs == old(self).oldest_secs,
            final(self).ips().dom() == old(self).ips().dom(),
            final(self).urls().dom() == old(self).urls().dom(),
            final(self).codes().dom() == old(self).codes().dom(),
    {
        proof {
            lemma_index_remove(self.ips(), t0, |r: LogRecord| ip_key(r), id);
            lemma_index_remove(self.urls(), t0, |r: LogRecord| url_key(r), id);
            lemma_index_remove(self.codes(), t0, |r: LogRecord| code_key(r), id);
        }
        index_remove_id(&mut self.ip_index, rec.ip.as_str(), id);
        index_remove_id(&mut self.url_index, rec.url.as_str(), id);
        if let Some(status_code) = rec.status_code {
            codes_remove_id(&mut self.status_code_index, status_code, id);
        }
        flags_remove(&mut self.error_records_cache, id);
        assert forall|x: u64| #[trigger] self.error_ids().contains_key(x) <==>
            (self.table().contains_key(x) && is_error(self.table()[x])) by {
            assert(old(self).error_ids().contains_key(x) <==> (t0.contains_key(x) && is_error(t0[x])));
        }
    }

    /// Indexes record `id` (not yet stored; every stored id is smaller) under its keys.
    fn update_critical_indexes(&mut self, id: u64, rec: &LogRecord)
        requires
            forall|x: u64| old(self).table().contains_key(x) ==> x < id,
            index_ok(old(self).ips(), old(self).table(), |r: LogRecord| ip_key(r)),
            index_ok(old(self).urls(), old(self).table(), |r: LogRecord| url_key(r)),
            index_ok(old(self).codes(), old(self).table(), |r: LogRecord| code_key(r)),
            cache_ok(old(self).error_ids(), old(self).table()),
        ensures
            index_ok(final(self).ips(), old(self).table().insert(id, *rec), |r: LogRecord| ip_key(r)),
            index_ok(final(self).urls(), old(self).table().insert(id, *rec), |r: LogRecord| url_key(r)),
            index_ok(final(self).codes(), old(self).table().insert(id, *rec), |r: LogRecord| code_key(r)),
            cache_ok(final(self).error_ids(), old(self).table().insert(id, *rec)),
            final(self).table() == old(self).table(),
            final(self).next_id == old(self).next_id,
            final(self).stats == old(self).stats,
            final(self).max_records == old(self).max_records,
            final(self).auto_cleanup == old(self).auto_cleanup,
            final(self).oldest_secs == old(self).oldest_secs,
            final(self).ips().dom() == old(self).ips().dom().insert(rec.ip@),
            final(self).urls().dom() == old(self).urls().dom().insert(rec.url@),
            final(self).codes().dom() == (match rec.status_code {
                Some(c) => old(self).codes().dom().insert(c),
                None => old(self).codes().dom(),
            }),
    {
        let ghost t0 = self.table();
        proof {
            lemma_index_add(self.ips(), t0, |r: LogRecord| ip_key(r), id, *rec);
            lemma_index_add(self.urls(), t0, |r: LogRecord| url_key(r), id, *rec);
            lemma_index_add(self.codes(), t0, |r: LogRecord| code_key(r), id, *rec);
        }
        index_push(&mut self.ip_index, rec.ip.clone(), id);
        index_push(&mut self.url_index, rec.url.clone(), id);
        if let Some(status_code) = rec.status_code {
            codes_push(&mut self.status_code_index, status_code, id);
            if status_code >= 400 {
                flags_insert(&mut self.error_records_cache, id, true);
            }
        }
        assert forall|x: u64| #[trigger] self.error_ids().contains_key(x) <==>
            (t0.insert(id, *rec).contains_key(x) && is_error(t0.insert(id, *rec)[x])) by {
            assert(old(self).error_ids().contains_key(x) <==> (t0.contains_key(x) && is_error(t0[x])));
        }
    }

    /// Evicts the oldest records: the `min(max_records / 2, len)` smallest ids.
    fn evict_old_records(&mut self)
        requires
            old(self).wf(),
        ensures
            final(self).wf(),
            exists|e: Set<u64>| evicts_now(old(self).table(), e, old(self).limit())
                && final(self).table() == old(self).table().remove_keys(e),
            final(self).next_id == old(self).next_id,
            final(self).stats == old(self).stats,
            final(self).max_records == old(self).max_records,
            final(self).auto_cleanup == old(self).auto_cleanup,
            final(self).oldest_secs == old(self).oldest_secs,
            final(self).ips().dom() == old(self).ips().dom(),
            final(self).urls().dom() == old(self).urls().dom(),
            final(self).codes().dom() == old(self).codes().dom(),
    {
        let target = self.max_records / 2;
        let len = records_len(&self.records);
        let n: usize = if target < len { target } else { len };
        let ghost t0 = self.table();
        let ghost s0 = *self;
        let mut removed: usize = 0;
        let mut cur: u64 = 0;
        proof {
            assert(ids_below(t0, 0) =~= Set::<u64>::empty());
            assert(t0.remove_keys(ids_below(t0, 0)) =~= t0);
        }
        while removed < n && cur < self.next_id
            invariant
                n <= t0.len(),
                removed <= n,
                cur <= s0.next_id,
                t0 == s0.table(),
                s0.wf(),
                self.wf(),
                ids_below(t0, cur).finite(),
                removed == ids_below(t0, cur).len(),
                self.table() == t0.remove_keys(ids_below(t0, cur)),
                self.next_id == s0.next_id,
                self.stats == s0.stats,
                self.max_records == s0.max_records,
                self.auto_cleanup == s0.auto_cleanup,
                self.oldest_secs == s0.oldest_secs,
                self.ips().dom() == s0.ips().dom(),
                self.urls().dom() == s0.urls().dom(),
                self.codes().dom() == s0.codes().dom(),
            decreases s0.next_id - cur,
        {
            let ghost tb = self.table();
            let ghost s1 = ids_below(t0, cur);
            let ghost s2 = ids_below(t0, (cur + 1) as u64);
            proof {
                assert(!s1.contains(cur));
                assert(tb.contains_key(cur) == t0.contains_key(cur));
            }
            let taken = records_remove(&mut self.records, cur);
            match taken {
                Some(rec) => {
                    self.remove_from_indexes(cur, &rec, Ghost(tb));
                    proof {
                        assert(s2 =~= s1.insert(cur));
                    }
                    removed = removed + 1;
                },
                None => {
                    proof {
                        assert(s2 =~= s1);
                    }
                },
            }
            proof {
                vstd::set_lib::lemma_len_subset(s2, t0.dom());
                assert(self.table() =~= t0.remove_keys(s2));
            }
            cur = cur + 1;
        }
        proof {
            let e = ids_below(t0, cur);
            vstd::set_lib::lemma_len_subset(e, t0.dom());
            if removed < n {
                assert(e =~= t0.dom());
            }
            assert forall|x: u64, y: u64| e.contains(x) && t0.contains_key(y) && !e.contains(y)
                implies x < y by {}
            assert(evicts_now(t0, e, s0.max_records));
        }
    }

    /// Removes the records created more than twenty minutes before `now`, together
    /// with their index entries.
    fn remove_stale_records(&mut self, now: &SystemTime)
        requires
            old(self).wf(),
        ensures
            final(self).wf(),
            final(self).table() == old(self).table().remove_keys(stale_ids(old(self).table(), *now)),
            final(self).next_id == old(self).next_id,
            final(self).stats == old(self).stats,
            final(self).max_records == old(self).max_records,
            final(self).auto_cleanup == old(self).auto_cleanup,
            final(self).ips().dom() == old(self).ips().dom(),
            final(self).urls().dom() == old(self).urls().dom(),
            final(self).codes().dom() == old(self).codes().dom(),
    {
        let keys = records_keys(&self.records);
        let ghost t0 = self.table();
        let ghost s0 = *self;
        let ghost st = |x: u64| record_stale(t0[x], *now);
        let now_secs = unix_secs(now);
        let mut oldest: u64 = u64::MAX;
        let mut i: usize = 0;
        while i < keys.len()
            invariant
                i <= keys@.len(),
                lists_keys(keys@, t0),
                self.wf(),
                st == (|x: u64| record_stale(t0[x], *now)),
                self.table() == t0.remove_keys(keys@.take(i as int).to_set().filter(st)),
                self.next_id == s0.next_id,
                self.stats == s0.stats,
                self.max_records == s0.max_records,
                self.auto_cleanup == s0.auto_cleanup,
                self.oldest_secs == s0.oldest_secs,
                self.ips().dom() == s0.ips().dom(),
                self.urls().dom() == s0.urls().dom(),
                self.codes().dom() == s0.codes().dom(),
                now_secs == epoch_secs(*now),
                forall|j: int| 0 <= j < i && #[trigger] self.table().contains_key(keys@[j])
                    ==> created_from(self.table()[keys@[j]], oldest),
            decreases keys.len() - i,
        {
            let id = keys[i];
            let ghost tb = self.table();
            let ghost before = keys@.take(i as int).to_set().filter(st);
            proof {
                assert(keys@.contains(id));
                if keys@.take(i as int).to_set().contains(id) {
                    let j = choose|j: int| 0 <= j < i && keys@.take(i as int)[j] == id;
                    assert(keys@[j] == keys@[i as int]);
                }
                assert(!before.contains(id));
                assert(tb.contains_key(id) && tb[id] == t0[id]);
                assert(keys@.take(i as int + 1) =~= keys@.take(i as int).push(id));
                assert forall|x: u64| keys@.take(i as int + 1).to_set().contains(x)
                    <==> keys@.take(i as int).to_set().insert(id).contains(x) by {
                    lemma_contains_push(keys@.take(i as int), id, x);
                }
                assert(keys@.take(i as int + 1).to_set() =~= keys@.take(i as int).to_set().insert(id));
            }
            let ghost after = keys@.take(i as int + 1).to_set().filter(st);
            match records_get(&self.records, id) {
                Some(rec) => {
                    let c = unix_secs(&rec.created_at);
                    let stale = match (c, now_secs) {
                        (Some(c), Some(n)) => c < n && n - c > 1200,
                        _ => false,
                    };
                    assert(stale == record_stale(t0[id], *now));
                    if stale {
                        let removed = records_remove(&mut self.records, id);
                        self.remove_from_indexes(id, &rec, Ghost(tb));
                        proof {
                            assert(after =~= before.insert(id));
                            assert(self.table() =~= t0.remove_keys(after));
                        }
                    } else {
                        proof {
                            assert(after =~= before);
                        }
                        match c {
                            Some(c) => {
                                if c < oldest {
                                    oldest = c;
                                }
                            },
                            None => {},
                        }
                    }
                },
                None => {},
            }
            i += 1;
        }
        proof {
            assert(keys@.take(i as int) =~= keys@);
            assert(keys@.to_set().filter(st) =~= stale_ids(t0, *now));
            assert forall|id: u64| #[trigger] self.table().contains_key(id) implies created_from(self.table()[id], oldest) by {
                assert(keys@.contains(id));
                let j = choose|j: int| 0 <= j < keys@.len() && keys@[j] == id;
                assert(self.table().contains_key(keys@[j]));
            }
        }
        self.oldest_secs = oldest;
    }

    /// The counters after recording `rec`.
    fn update_stats(&mut self, rec: &LogRecord)
        requires
            old(self).stats.total_records < usize::MAX,
            old(self).stats.total_requests < usize::MAX,
            old(self).stats.total_response_size + size_of_response(*rec) <= u64::MAX,
        ensures
            final(self).stats == (DBStats {
                total_records: (old(self).stats.total_records + 1) as usize,
                total_requests: (old(self).stats.total_requests + 1) as usize,
                total_response_size: (old(self).stats.total_response_size + size_of_response(*rec)) as u64,
                ..old(self).stats
            }),
            final(self).records == old(self).records,
            final(self).ip_index == old(self).ip_index,
            final(self).url_index == old(self).url_index,
            final(self).status_code_index == old(self).status_code_index,
            final(self).error_records_cache == old(self).error_records_cache,
            final(self).next_id == old(self).next_id,
            final(self).max_records == old(self).max_records,
            final(self).auto_cleanup == old(self).auto_cleanup,
            final(self).oldest_secs == old(self).oldest_secs,
    {
        self.stats.total_records += 1;
        self.stats.total_requests += 1;
        if let Some(size) = rec.response_size {
            self.stats.total_response_size += size;
        }
    }

    /// Stores `record` under a fresh id and returns that id. When the store already
    /// holds `max_records` records or more, the oldest half of the limit is evicted
    /// first; then, when the automatic cleanup is
    /// on and more than 10 000 records remain, those created more than twenty minutes
    /// ago are removed. (The store keeps a lower bound on the creation times it holds,
    /// so it looks through its records only when one of them can be that old.)
    pub fn insert(&mut self, record: LogRecord) -> (r: u64)
        requires
            old(self).wf(),
            old(self).can_insert(record),
        ensures
            final(self).wf(),
            r == old(self).next_id(),
            final(self).next_id() == old(self).next_id() + 1,
            exists|e: Set<u64>, now: SystemTime| {
                &&& evicts(old(self).table(), e, old(self).limit())
                &&& final(self).table() == #[trigger] cleaned(old(self).table().remove_keys(e), old(self).cleanup_on(), now).insert(r, record)
            },
            final(self).limit() == old(self).limit(),
            final(self).cleanup_on() == old(self).cleanup_on(),
            final(self).ips().dom() == old(self).ips().dom().insert(record.ip@),
            final(self).urls().dom() == old(self).urls().dom().insert(record.url@),
            final(self).codes().dom() == (match record.status_code {
                Some(c) => old(self).codes().dom().insert(c),
                None => old(self).codes().dom(),
            }),
            final(self).counters().total_records == old(self).counters().total_records + 1,
            final(self).counters().total_requests == old(self).counters().total_requests + 1,
            final(self).counters().total_response_size
                == old(self).counters().total_response_size + size_of_response(record),
    {
        let id = self.next_id;
        let ghost t_old = self.table();
        let len = records_len(&self.records);
        if len >= self.max_records {
            self.evict_old_records();
        } else {
            assert(t_old.remove_keys(Set::<u64>::empty()) =~= t_old);
        }
        let ghost t_ev = self.table();
        assert(exists|e: Set<u64>| evicts(t_old, e, self.max_records) && t_ev == t_old.remove_keys(e));
        let now = system_now();
        let remaining = records_len(&self.records);
        let ghost sweeping = old(self).cleanup_on();
        if self.auto_cleanup && remaining > 10_000 {
            let now_secs = unix_secs(&now);
            let might_be_stale = match now_secs {
                Some(n) => n > 1200 && n - 1200 > self.oldest_secs,
                None => false,
            };
            if might_be_stale {
                self.remove_stale_records(&now);
            } else {
                proof {
                    let t = self.table();
                    assert forall|x: u64| !#[trigger] stale_ids(t, now).contains(x) by {
                        if t.contains_key(x) {
                            assert(created_from(t[x], self.oldest_secs));
                        }
                    }
                    assert(t.remove_keys(stale_ids(t, now)) =~= t);
                }
            }
        }
        let created = unix_secs(&record.created_at);
        match created {
            Some(c) => {
                if c < self.oldest_secs {
                    self.oldest_secs = c;
                }
            },
            None => {},
        }
        self.next_id = id + 1;
        let ghost t_mid = self.table();
        assert(t_mid == cleaned(t_ev, sweeping, now));
        self.update_critical_indexes(id, &record);
        self.update_stats(&record);
        records_insert(&mut self.records, id, record);
        proof {
            let e = choose|e: Set<u64>| evicts(t_old, e, self.max_records) && t_ev == t_old.remove_keys(e);
            assert(self.table() == cleaned(t_old.remove_keys(e), sweeping, now).insert(id, record));
            assert(self.table().dom().finite());
            assert(self.max_records == old(self).max_records);
            assert(t_old == old(self).table());
            assert(t_ev.len() == remaining);
            assert(evicts(old(self).table(), e, old(self).limit())
                && self.table() == cleaned(old(self).table().remove_keys(e), old(self).cleanup_on(), now).insert(id, record));
        }
        id
    }

    /// The stored records under the first 1000 of `ids`, in that order.
    fn collect_records(&self, ids: &Vec<u64>) -> (r: Vec<LogRecord>)
        requires
            forall|j: int| 0 <= j < ids@.len() ==> self.table().contains_key(#[trigger] ids@[j]),
        ensures
            r@ == first_n(ids@, 1000).map_values(|id: u64| self.table()[id]),
    {
        let n: usize = if ids.len() < 1000 { ids.len() } else { 1000 };
        let mut r: Vec<LogRecord> = Vec::new();
        let mut i: usize = 0;
        while i < n
            invariant
                n <= ids@.len(),
                n == (if ids@.len() < 1000 { ids@.len() } else { 1000 }),
                i <= n,
                forall|j: int| 0 <= j < ids@.len() ==> self.table().contains_key(#[trigger] ids@[j]),
                r@ == ids@.take(i as int).map_values(|id: u64| self.table()[id]),
            decreases n - i,
        {
            let ghost prev = r@;
            assert(self.table().contains_key(ids@[i as int]));
            match records_get(&self.records, ids[i]) {
                Some(rec) => {
                    r.push(rec);
                },
                None => {},
            }
            assert(ids@.take(i as int + 1) =~= ids@.take(i as int).push(ids@[i as int]));
            assert(r@ =~= ids@.take(i as int + 1).map_values(|id: u64| self.table()[id]));
            i += 1;
        }
        assert(ids@.take(n as int) =~= first_n(ids@, 1000));
        r
    }

    /// The records of requests from `ip`: the first 1000 in insertion order.
    pub fn find_by_ip(&self, ip: &str) -> (r: Vec<LogRecord>)
        requires
            self.wf(),
        ensures
            r@ == found(self.ips(), self.table(), ip@),
    {
        match index_get(&self.ip_index, ip) {
            Some(ids) => {
                assert forall|j: int| 0 <= j < ids@.len() implies self.table().contains_key(#[trigger] ids@[j]) by {
                    assert(self.ips().contains_key(ip@) && 0 <= j < self.ips()[ip@].len());
                }
                self.collect_records(&ids)
            },
            None => Vec::new(),
        }
    }

    /// The records of requests for `url`: the first 1000 in insertion order.
    pub fn find_by_url(&self, url: &str) -> (r: Vec<LogRecord>)
        requires
            self.wf(),
        ensures
            r@ == found(self.urls(), self.table(), url@),
    {
        match index_get(&self.url_index, url) {
            Some(ids) => {
                assert forall|j: int| 0 <= j < ids@.len() implies self.table().contains_key(#[trigger] ids@[j]) by {
                    assert(self.urls().contains_key(url@) && 0 <= j < self.urls()[url@].len());
                }
                self.collect_records(&ids)
            },
            None => Vec::new(),
        }
    }

    /// The counters, with the numbers of distinct IPs and URLs the indexes hold.
    pub fn get_stats(&self) -> (r: DBStats)
        ensures
            r == (DBStats {
                unique_ips: self.ips().len() as usize,
                unique_urls: self.urls().len() as usize,
                unique_domains: 0,
                ..self.counters()
            }),
    {
        let mut stats = self.stats;
        stats.unique_ips = index_len(&self.ip_index);
        stats.unique_urls = index_len(&self.url_index);
        stats.unique_domains = 0;
        stats
    }

    /// Empties the store and restarts ids at 1; the limit is kept.
    pub fn clear(&mut self)
        ensures
            final(self).wf(),
            final(self).table() == Map::<u64, LogRecord>::empty(),
            final(self).ips() == Map::<Seq<char>, Seq<u64>>::empty(),
            final(self).urls() == Map::<Seq<char>, Seq<u64>>::empty(),
            final(self).codes() == Map::<u16, Seq<u64>>::empty(),
            final(self).next_id() == 1,
            final(self).limit() == old(self).limit(),
            final(self).cleanup_on() == old(self).cleanup_on(),
            final(self).counters() == (DBStats {
                total_records: 0,
                unique_ips: 0,
                unique_urls: 0,
                unique_domains: 0,
                total_requests: 0,
                total_response_size: 0,
            }),
    {
        records_clear(&mut self.records);
        self.next_id = 1;
        index_clear(&mut self.ip_index);
        index_clear(&mut self.url_index);
        codes_clear(&mut self.status_code_index);
        flags_clear(&mut self.error_records_cache);
        self.stats = DBStats::new();
        assert(self.table() =~= Map::<u64, LogRecord>::empty());
        assert(self.ips() =~= Map::<Seq<char>, Seq<u64>>::empty());
        assert(self.urls() =~= Map::<Seq<char>, Seq<u64>>::empty());
        assert(self.codes() =~= Map::<u16, Seq<u64>>::empty());
        assert(self.error_ids() =~= Map::<u64, bool>::empty());
        assert(self.table().dom().finite());
    }

    /// Sets the number of records at which the store starts evicting.
    pub fn set_max_records(&mut self, max_records: usize)
        requires
            old(self).wf(),
        ensures
            final(self).wf(),
            final(self).limit() == max_records,
            final(self).table() == old(self).table(),
            final(self).ips() == old(self).ips(),
            final(self).urls() == old(self).urls(),
            final(self).codes() == old(self).codes(),
            final(self).next_id() == old(self).next_id(),
            final(self).counters() == old(self).counters(),
            final(self).cleanup_on() == old(self).cleanup_on(),
    {
        self.max_records = max_records;
    }

    /// Switches the removal of records older than twenty minutes on or off.
    pub fn set_auto_cleanup(&mut self, on: bool)
        requires
            old(self).wf(),
        ensures
            final(self).wf(),
            final(self).cleanup_on() == on,
            final(self).limit() == old(self).limit(),
            final(self).table() == old(self).table(),
            final(self).ips() == old(self).ips(),
            final(self).urls() == old(self).urls(),
            final(self).codes() == old(self).codes(),
            final(self).next_id() == old(self).next_id(),
            final(self).counters() == old(self).counters(),
    {
        self.auto_cleanup = on;
    }

    /// The number of stored records.
    pub fn get_records_count(&self) -> (r: usize)
        ensures
            r == self.table().len(),
    {
        records_len(&self.records)
    }

    /// Every stored record, in the table's iteration order.
    pub fn get_all_records(&self) -> (r: Vec<LogRecord>)
        ensures
            exists|ks: Seq<u64>| lists_keys(ks, self.table()) && r@ == ks.map_values(|id: u64| self.table()[id]),
    {
        let keys = records_keys(&self.records);
        let mut r: Vec<LogRecord> = Vec::new();
        let mut i: usize = 0;
        while i < keys.len()
            invariant
                i <= keys@.len(),
                lists_keys(keys@, self.table()),
                r@ == keys@.take(i as int).map_values(|id: u64| self.table()[id]),
            decreases keys.len() - i,
        {
            assert(keys@.contains(keys@[i as int]));
            match records_get(&self.records, keys[i]) {
                Some(rec) => {
                    r.push(rec);
                },
                None => {},
            }
            assert(keys@.take(i as int + 1) =~= keys@.take(i as int).push(keys@[i as int]));
            assert(r@ =~= keys@.take(i as int + 1).map_values(|id: u64| self.table()[id]));
            i += 1;
        }
        assert(keys@.take(i as int) =~= keys@);
        r
    }

    /// A rough estimate of the memory the store takes, in bytes.
    pub fn get_memory_usage(&self) -> (r: usize)
        requires
            self.memory_estimate() <= usize::MAX,
        ensures
            r == self.memory_estimate(),
    {
        let records_size = records_len(&self.records) * std::mem::size_of::<LogRecord>();
        let ip_index_size = index_len(&self.ip_index) * 64;
        let url_index_size = index_len(&self.url_index) * 128;
        let status_index_size = codes_len(&self.status_code_index) * 32;
        let error_cache_size = flags_len(&self.error_records_cache) * 16;
        records_size + ip_index_size + url_index_size + status_index_size + error_cache_size
    }

    /// The estimate `get_memory_usage` gives: the size of a record per stored record,
    /// and 64, 128, 32 and 16 bytes per IP, URL, status code and failed request.
    pub open spec fn memory_estimate(&self) -> int {
        (self.table().len() * vstd::layout::size_of::<LogRecord>()
            + self.ips().len() * 64 + self.urls().len() * 128
            + self.codes().len() * 32 + self.error_ids().len() * 16) as int
    }

    /// The distinct IPs with their numbers of stored requests, most first: among the
    /// first 1000 IPs in the index's iteration order, the `limit` with the most
    /// requests (ties keep that order).
    pub fn get_top_ips(&self, limit: usize) -> (r: Vec<(String, usize)>)
        ensures
            exists|s: Seq<(Seq<char>, usize)>| sizes_listed(s, self.ips())
                && pair_view(r@) == first_n(sort_desc(first_n(s, 1000)), limit as nat),
    {
        let r = top_sizes(&self.ip_index, limit);
        proof {
            let s = choose|s: Seq<(Seq<char>, usize)>| sizes_listed(s, id_lists(self.ip_index))
                && pair_view(r@) == first_n(sort_desc(first_n(s, 1000)), limit as nat);
            assert(sizes_listed(s, self.ips()));
        }
        r
    }

    /// The distinct URLs with their numbers of stored requests, most first: among
    /// the first 1000 URLs in the index's iteration order, the `limit` with the most
    /// requests (ties keep that order).
    pub fn get_top_urls(&self, limit: usize) -> (r: Vec<(String, usize)>)
        ensures
            exists|s: Seq<(Seq<char>, usize)>| sizes_listed(s, self.urls())
                && pair_view(r@) == first_n(sort_desc(first_n(s, 1000)), limit as nat),
    {
        let r = top_sizes(&self.url_index, limit);
        proof {
            let s = choose|s: Seq<(Seq<char>, usize)>| sizes_listed(s, id_lists(self.url_index))
                && pair_view(r@) == first_n(sort_desc(first_n(s, 1000)), limit as nat);
            assert(sizes_listed(s, self.urls()));
        }
        r
    }

    /// The status codes, in decimal, with their numbers of stored requests, most
    /// first, at most `limit` of them (ties keep the index's iteration order).
    pub fn get_top_status_codes(&self, limit: usize) -> (r: Vec<(String, usize)>)
        ensures
            exists|s: Seq<(u16, usize)>| sizes_listed(s, self.codes())
                && pair_view(r@) == first_n(sort_desc(s), limit as nat).map_values(
                    |p: (u16, usize)| (decimal(p.0 as nat), p.1)),
    {
        let sizes = codes_sizes(&self.status_code_index);
        let ghost s = sizes@;
        proof {
            assert(s.map_values(|p: (u16, usize)| p.0) =~= sizes@.map_values(|p: (u16, usize)| p.0));
        }
        let mut sorted = sort_codes_desc(sizes);
        sorted.truncate(limit);
        let ghost kept = sorted@;
        proof {
            assert(kept =~= first_n(sort_desc(s), limit as nat));
        }
        let mut r: Vec<(String, usize)> = Vec::new();
        let mut i: usize = 0;
        while i < sorted.len()
            invariant
                kept == sorted@,
                i <= sorted@.len(),
                pair_view(r@) == kept.take(i as int).map_values(|p: (u16, usize)| (decimal(p.0 as nat), p.1)),
            decreases sorted.len() - i,
        {
            let (code, count) = sorted[i];
            let text = u64_to_string(code as u64);
            let ghost prev = r@;
            r.push((text, count));
            assert(kept.take(i as int + 1) =~= kept.take(i as int).push((code, count)));
            assert(pair_view(r@) =~= pair_view(prev).push((decimal(code as nat), count)));
            assert(pair_view(r@) =~= kept.take(i as int + 1).map_values(|p: (u16, usize)| (decimal(p.0 as nat), p.1)));
            i += 1;
        }
        assert(kept.take(i as int) =~= kept);
        assert(sizes_listed(s, self.codes()));
        r
    }

    /// The user agents with their numbers of stored requests, most first, at most
    /// `limit` of them; records are visited in the table's iteration order, and ties
    /// keep the order in which agents were first met.
    pub fn get_top_user_agents(&self, limit: usize) -> (r: Vec<(String, usize)>)
        ensures
            exists|ks: Seq<u64>| lists_keys(ks, self.table())
                && pair_view(r@) == first_n(sort_desc(tally(agents_in(records_at(self.table(), ks)))), limit as nat),
    {
        let keys = records_keys(&self.records);
        let ghost t = self.table();
        let mut counts: Table<usize> = Table::new();
        let mut i: usize = 0;
        while i < keys.len()
            invariant
                t == self.table(),
                i <= keys@.len(),
                lists_keys(keys@, t),
                counts.wf(),
                counts.seq() == tally(agents_in(records_at(t, keys@.take(i as int)))),
            decreases keys.len() - i,
        {
            let ghost prev = records_at(t, keys@.take(i as int));
            proof {
                lemma_records_at_step(t, keys@, i as int);
                lemma_agents_len(prev);
                law_tally_counts(agents_in(prev));
                assert(keys@.contains(keys@[i as int]));
            }
            match records_get(&self.records, keys[i]) {
                Some(rec) => {
                    match &rec.user_agent {
                        Some(ua) => {
                            proof { lemma_tally_step(agents_in(prev), ua@); }
                            counts.increment(ua.as_str());
                        },
                        None => {},
                    }
                },
                None => {},
            }
            i += 1;
        }
        assert(keys@.take(i as int) =~= keys@);
        let mut sorted = sort_pairs_desc(counts.to_pairs());
        let ghost full = sorted@;
        sorted.truncate(limit);
        assert(pair_view(sorted@) =~= first_n(pair_view(full), limit as nat));
        sorted
    }

    /// The IPs with the most suspicious requests (failed, or mentioning an attack
    /// pattern), most first, at most 10 of them; records are visited in the table's
    /// iteration order, and ties keep the order in which IPs were first met.
    pub fn get_suspicious_ips(&self) -> (r: Vec<(String, usize)>)
        ensures
            exists|ks: Seq<u64>| lists_keys(ks, self.table())
                && pair_view(r@) == first_n(sort_desc(tally(ips_in(suspicious_records(records_at(self.table(), ks))))), 10),
    {
        let keys = records_keys(&self.records);
        let ghost t = self.table();
        let pats = attack_pattern_list();
        let mut counts: Table<usize> = Table::new();
        let mut i: usize = 0;
        while i < keys.len()
            invariant
                t == self.table(),
                i <= keys@.len(),
                lists_keys(keys@, t),
                pats@.map_values(|s: &str| s@) == attack_patterns(),
                counts.wf(),
                counts.seq() == tally(ips_in(suspicious_records(records_at(t, keys@.take(i as int))))),
            decreases keys.len() - i,
        {
            let ghost prev = records_at(t, keys@.take(i as int));
            let ghost sus = suspicious_records(prev);
            proof {
                lemma_records_at_step(t, keys@, i as int);
                lemma_suspicious_len(prev);
                law_tally_counts(ips_in(sus));
                assert(keys@.contains(keys@[i as int]));
            }
            match records_get(&self.records, keys[i]) {
                Some(rec) => {
                    if suspicious(&rec, &pats) {
                        proof {
                            assert(ips_in(sus.push(rec)) =~= ips_in(sus).push(rec.ip@));
                            lemma_tally_step(ips_in(sus), rec.ip@);
                        }
                        counts.increment(rec.ip.as_str());
                    }
                },
                None => {},
            }
            i += 1;
        }
        assert(keys@.take(i as int) =~= keys@);
        let mut sorted = sort_pairs_desc(counts.to_pairs());
        let ghost full = sorted@;
        sorted.truncate(10);
        assert(pair_view(sorted@) =~= first_n(pair_view(full), 10));
        sorted
    }

    /// The attack patterns found in the log lines of the stored requests, with the
    /// number of requests mentioning each, most first, at most 10 of them (ties keep
    /// the pattern order).
    pub fn get_attack_patterns(&self) -> (r: Vec<(String, usize)>)
        ensures
            exists|ks: Seq<u64>| lists_keys(ks, self.table())
                && pair_view(r@) == first_n(sort_desc(mentioned(records_at(self.table(), ks), attack_patterns())), 10),
    {
        let keys = records_keys(&self.records);
        let ghost t = self.table();
        let pats = attack_pattern_list();
        let ghost pv = attack_patterns();
        let mut counts: Vec<usize> = Vec::new();
        let mut j: usize = 0;
        while j < pats.len()
            invariant
                j <= pats@.len(),
                counts@.len() == j,
                forall|m: int| 0 <= m < j ==> counts@[m] == 0,
            decreases pats.len() - j,
        {
            counts.push(0);
            j += 1;
        }
        let mut i: usize = 0;
        while i < keys.len()
            invariant
                t == self.table(),
                i <= keys@.len(),
                lists_keys(keys@, t),
                pats@.map_values(|s: &str| s@) == pv,
                counts@.len() == pv.len(),
                forall|m: int| 0 <= m < pv.len() ==>
                    #[trigger] counts@[m] == mention_count(records_at(t, keys@.take(i as int)), pv[m]),
            decreases keys.len() - i,
        {
            let ghost prev = records_at(t, keys@.take(i as int));
            proof {
                lemma_records_at_step(t, keys@, i as int);
                assert(keys@.contains(keys@[i as int]));
            }
            match records_get(&self.records, keys[i]) {
                Some(rec) => {
                    let ghost next = prev.push(rec);
                    let line = chars_of(to_lowercase(rec.log_line.as_str()).as_str());
                    let mut j: usize = 0;
                    while j < pats.len()
                        invariant
                            pats@.map_values(|s: &str| s@) == pv,
                            counts@.len() == pv.len(),
                            j <= pv.len(),
                            i < keys@.len(),
                            keys@.len() <= usize::MAX,
                            prev.len() == i,
                            next == prev.push(rec),
                            line@ == lowercase(rec.log_line@),
                            forall|m: int| 0 <= m < j ==> #[trigger] counts@[m] == mention_count(next, pv[m]),
                            forall|m: int| j <= m < pv.len() ==> #[trigger] counts@[m] == mention_count(prev, pv[m]),
                        decreases pats.len() - j,
                    {
                        let pc = chars_of(pats[j]);
                        assert(pc@ == pv[j as int]);
                        assert(next.drop_last() =~= prev);
                        proof { lemma_mention_count_len(prev, pv[j as int]); }
                        assert(counts@[j as int] == mention_count(prev, pv[j as int]));
                        assert(counts@[j as int] < keys@.len());
                        if contains(line.as_slice(), pc.as_slice()) {
                            counts.set(j, counts[j] + 1);
                        }
                        j += 1;
                    }
                },
                None => {},
            }
            i += 1;
        }
        assert(keys@.take(i as int) =~= keys@);
        let ghost recs = records_at(t, keys@);
        let mut pairs: Vec<(String, usize)> = Vec::new();
        let mut j: usize = 0;
        while j < pats.len()
            invariant
                pats@.map_values(|s: &str| s@) == pv,
                counts@.len() == pv.len(),
                j <= pv.len(),
                forall|m: int| 0 <= m < pv.len() ==> #[trigger] counts@[m] == mention_count(recs, pv[m]),
                pair_view(pairs@) == mentioned(recs, pv.take(j as int)),
            decreases pats.len() - j,
        {
            assert(pv.take(j as int + 1).drop_last() =~= pv.take(j as int));
            assert(pv.take(j as int + 1).last() == pv[j as int]);
            if counts[j] > 0 {
                let ghost prev = pairs@;
                let name = String::from_str(pats[j]);
                pairs.push((name, counts[j]));
                assert(pair_view(pairs@) =~= pair_view(prev).push((pv[j as int], counts@[j as int])));
            }
            j += 1;
        }
        assert(pv.take(j as int) =~= pv);
        let mut sorted = sort_pairs_desc(pairs);
        let ghost full = sorted@;
        sorted.truncate(10);
        assert(pair_view(sorted@) =~= first_n(pair_view(full), 10));
        sorted
    }

    /// The per-IP patterns found in the log lines of the requests `find_by_ip(ip)`
    /// returns, record after record, each record's hits in pattern order.
    pub fn get_suspicious_patterns_for_ip(&self, ip: &str) -> (r: Vec<String>)
        requires
            self.wf(),
        ensures
            r@.map_values(|s: String| s@) == line_hits(found(self.ips(), self.table(), ip@), ip_patterns()),
    {
        let records = self.find_by_ip(ip);
        let pats = ip_pattern_list();
        let ghost pv = ip_patterns();
        let mut r: Vec<String> = Vec::new();
        let mut i: usize = 0;
        while i < records.len()
            invariant
                pats@.map_values(|s: &str| s@) == pv,
                i <= records@.len(),
                r@.map_values(|s: String| s@) == line_hits(records@.take(i as int), pv),
            decreases records.len() - i,
        {
            let line = chars_of(to_lowercase(records[i].log_line.as_str()).as_str());
            let found_here = find_hits(line.as_slice(), &pats);
            let ghost h = found_here@.map_values(|s: &str| s@);
            let ghost before = r@.map_values(|s: String| s@);
            assert(records@.take(i as int + 1).drop_last() =~= records@.take(i as int));
            assert(records@.take(i as int + 1).last() == records@[i as int]);
            let mut k: usize = 0;
            while k < found_here.len()
                invariant
                    k <= found_here@.len(),
                    h == found_here@.map_values(|s: &str| s@),
                    r@.map_values(|s: String| s@) == before + h.take(k as int),
                decreases found_here.len() - k,
            {
                let ghost prev = r@;
                r.push(String::from_str(found_here[k]));
                assert(r@.map_values(|s: String| s@) =~= prev.map_values(|s: String| s@).push(h[k as int]));
                assert(before + h.take(k as int + 1) =~= (before + h.take(k as int)).push(h[k as int]));
                k += 1;
            }
            assert(h.take(k as int) =~= h);
            i += 1;
        }
        assert(records@.take(i as int) =~= records@);
        r
    }

    /// For the requests made by crawlers: the number of distinct IPs, the number of
    /// requests, and the number of distinct URLs.
    pub fn get_bot_stats(&self) -> (r: (usize, usize, usize))
        ensures
            exists|ks: Seq<u64>| lists_keys(ks, self.table()) && {
                let b = bot_records(records_at(self.table(), ks));
                r == (ips_in(b).to_set().len() as usize, b.len() as usize, urls_in(b).to_set().len() as usize)
            },
    {
        let keys = records_keys(&self.records);
        let ghost t = self.table();
        let mut ips: Table<usize> = Table::new();
        let mut urls: Table<usize> = Table::new();
        let mut count: usize = 0;
        let mut i: usize = 0;
        while i < keys.len()
            invariant
                t == self.table(),
                i <= keys@.len(),
                lists_keys(keys@, t),
                ips.wf(),
                urls.wf(),
                count == bot_records(records_at(t, keys@.take(i as int))).len(),
                ips.seq() == tally(ips_in(bot_records(records_at(t, keys@.take(i as int))))),
                urls.seq() == tally(urls_in(bot_records(records_at(t, keys@.take(i as int))))),
            decreases keys.len() - i,
        {
            let ghost prev = records_at(t, keys@.take(i as int));
            let ghost b = bot_records(prev);
            proof {
                lemma_records_at_step(t, keys@, i as int);
                lemma_bot_records_len(prev);
                law_tally_counts(ips_in(b));
                law_tally_counts(urls_in(b));
                assert(keys@.contains(keys@[i as int]));
            }
            match records_get(&self.records, keys[i]) {
                Some(rec) => {
                    if bot_agent(&rec.user_agent) {
                        proof {
                            assert(ips_in(b.push(rec)) =~= ips_in(b).push(rec.ip@));
                            assert(urls_in(b.push(rec)) =~= urls_in(b).push(rec.url@));
                            lemma_tally_step(ips_in(b), rec.ip@);
                            lemma_tally_step(urls_in(b), rec.url@);
                        }
                        count += 1;
                        ips.increment(rec.ip.as_str());
                        urls.increment(rec.url.as_str());
                    }
                },
                None => {},
            }
            i += 1;
        }
        assert(keys@.take(i as int) =~= keys@);
        proof {
            let b = bot_records(records_at(t, keys@));
            lemma_bot_records_len(records_at(t, keys@));
            law_tally_counts(ips_in(b));
            law_tally_counts(urls_in(b));
        }
        (ips.len(), count, urls.len())
    }

    /// For the stored failed requests (status 400 or above): their number as summed
    /// over the status-code index, their number as held by the error cache, and the
    /// number of distinct IPs that made them.
    pub fn get_error_stats(&self) -> (r: (usize, usize, usize))
        requires
            self.wf(),
        ensures
            r.0 == error_set(self.table()).len(),
            r.1 == error_set(self.table()).len(),
            r.2 == error_ips(self.table()).len(),
    {
        let ghost t = self.table();
        let n_records = records_len(&self.records);
        let sizes = codes_sizes(&self.status_code_index);
        let ghost cs = sizes@.map_values(|p: (u16, usize)| p.0);
        let mut error_codes_count: usize = 0;
        let mut j: usize = 0;
        assert(errors_with(t, cs.take(0)) =~= Set::<u64>::empty());
        while j < sizes.len()
            invariant
                t == self.table(),
                self.wf(),
                n_records == t.len(),
                j <= sizes@.len(),
                cs == sizes@.map_values(|p: (u16, usize)| p.0),
                lists_keys(cs, self.codes()),
                forall|i: int| 0 <= i < sizes@.len() ==> #[trigger] sizes@[i].1 == self.codes()[sizes@[i].0].len(),
                error_codes_count == errors_with(t, cs.take(j as int)).len(),
            decreases sizes.len() - j,
        {
            let (code, n) = sizes[j];
            proof {
                assert(cs[j as int] == code);
                assert(cs.contains(code));
                if cs.take(j as int).contains(code) {
                    let i = choose|i: int| 0 <= i < j && cs.take(j as int)[i] == code;
                    assert(cs[i] == cs[j as int]);
                }
                lemma_errors_with_step(t, self.codes(), cs.take(j as int), code);
                assert(cs.take(j as int + 1) =~= cs.take(j as int).push(code));
            }
            if code >= 400 {
                error_codes_count = error_codes_count + n;
            }
            j += 1;
        }
        proof {
            assert(cs.take(j as int) =~= cs);
            assert forall|id: u64| error_set(t).contains(id) <==> errors_with(t, cs).contains(id) by {
                if error_set(t).contains(id) {
                    let c = t[id].status_code->0;
                    assert(code_key(t[id]) == Some(c));
                    assert(self.codes().contains_key(c));
                }
            }
            assert(error_set(t) =~= errors_with(t, cs));
            assert(self.error_ids().dom() =~= error_set(t));
        }
        let error_urls_count = flags_len(&self.error_records_cache);
        let keys = flags_keys(&self.error_records_cache);
        let mut ips: Table<usize> = Table::new();
        let mut i: usize = 0;
        while i < keys.len()
            invariant
                t == self.table(),
                self.wf(),
                i <= keys@.len(),
                lists_keys(keys@, self.error_ids()),
                ips.wf(),
                ips.seq() == tally(ips_in(records_at(t, keys@.take(i as int)))),
            decreases keys.len() - i,
        {
            let ghost prev = records_at(t, keys@.take(i as int));
            proof {
                lemma_records_at_step(t, keys@, i as int);
                law_tally_counts(ips_in(prev));
                assert(keys@.contains(keys@[i as int]));
                assert(self.error_ids().contains_key(keys@[i as int]));
                assert(ips_in(records_at(t, keys@.take(i as int + 1))) =~= ips_in(prev).push(t[keys@[i as int]].ip@));
            }
            match records_get(&self.records, keys[i]) {
                Some(rec) => {
                    proof { lemma_tally_step(ips_in(prev), rec.ip@); }
                    ips.increment(rec.ip.as_str());
                },
                None => {},
            }
            i += 1;
        }
        proof {
            assert(keys@.take(i as int) =~= keys@);
            let v = ips_in(records_at(t, keys@));
            law_tally_counts(v);
            assert forall|x: Seq<char>| v.to_set().contains(x) <==> error_ips(t).contains(x) by {
                if v.contains(x) {
                    let m = choose|m: int| 0 <= m < v.len() && v[m] == x;
                    assert(keys@.contains(keys@[m]));
                    assert(error_set(t).contains(keys@[m]));
                }
                if error_ips(t).contains(x) {
                    let id = choose|id: u64| error_set(t).contains(id) && t[id].ip@ == x;
                    assert(self.error_ids().contains_key(id));
                    assert(keys@.contains(id));
                    let m = choose|m: int| 0 <= m < keys@.len() && keys@[m] == id;
                    assert(v[m] == x);
                }
            }
            assert(v.to_set() =~= error_ips(t));
        }
        (error_codes_count, error_urls_count, ips.len())
    }

    /// The number of requests per interval of `interval_seconds` seconds (the
    /// timestamp divided by the width, rounding toward zero), by increasing interval,
    /// over the first 5000 records in the table's iteration order.
    pub fn get_time_series_data(&self, interval_seconds: i64) -> (r: Vec<(i64, usize)>)
        requires
            interval_seconds != 0,
            interval_seconds == -1 ==> forall|id: u64| #[trigger] self.table().contains_key(id)
                ==> self.table()[id].timestamp != i64::MIN,
        ensures
            exists|ks: Seq<u64>| lists_keys(ks, self.table())
                && counted_ascending(r@, intervals_of(records_at(self.table(), first_n(ks, 5000)), interval_seconds)),
    {
        broadcast use vstd::seq_lib::group_to_multiset_ensures;
        let keys = records_keys(&self.records);
        let ghost t = self.table();
        let n: usize = if keys.len() < 5000 { keys.len() } else { 5000 };
        let mut r: Vec<(i64, usize)> = Vec::new();
        let mut i: usize = 0;
        while i < n
            invariant
                t == self.table(),
                n <= keys@.len(),
                n <= 5000,
                i <= n,
                lists_keys(keys@, t),
                interval_seconds != 0,
                interval_seconds == -1 ==> forall|id: u64| #[trigger] t.contains_key(id) ==> t[id].timestamp != i64::MIN,
                counted_ascending(r@, intervals_of(records_at(t, keys@.take(i as int)), interval_seconds)),
            decreases n - i,
        {
            let ghost prev = intervals_of(records_at(t, keys@.take(i as int)), interval_seconds);
            proof {
                lemma_records_at_step(t, keys@, i as int);
                assert(keys@.contains(keys@[i as int]));
            }
            match records_get(&self.records, keys[i]) {
                Some(rec) => {
                    assert(t.contains_key(keys@[i as int]));
                    let b = div_i64(rec.timestamp, interval_seconds);
                    let ghost next = prev.push(b);
                    assert(intervals_of(records_at(t, keys@.take(i as int + 1)), interval_seconds) =~= next);
                    let ghost old_r = r@;
                    let mut pos: usize = 0;
                    while pos < r.len() && r[pos].0 < b
                        invariant
                            pos <= r@.len(),
                            forall|m: int| 0 <= m < pos ==> r@[m].0 < b,
                        decreases r.len() - pos,
                    {
                        pos += 1;
                    }
                    proof {
                        assert forall|m: int| pos <= m < r@.len() implies r@[m].0 >= b by {
                            if m > pos {
                                assert(r@[pos as int].0 < r@[m].0);
                            }
                        }
                    }
                    if pos < r.len() && r[pos].0 == b {
                        let c = r[pos].1;
                        proof {
                            assert(prev.to_multiset().count(b) <= prev.len()) by {
                                prev.to_multiset_ensures();
                                assert(prev.to_multiset().len() == prev.len());
                                vstd::multiset::axiom_count_le_len(prev.to_multiset(), b);
                            }
                        }
                        r.set(pos, (b, c + 1));
                    } else {
                        r.insert(pos, (b, 1));
                    }
                    proof {
                        lemma_count_step(old_r, prev, b, pos as int);
                    }
                },
                None => {},
            }
            i += 1;
        }
        assert(keys@.take(n as int) =~= first_n(keys@, 5000));
        r
    }
}

impl Default for MemoryDB {
    /// An empty store (as `MemoryDB::new`).
    fn default() -> (r: Self)
        ensures
            r.wf(),
            r.table() == Map::<u64, LogRecord>::empty(),
            r.next_id() == 1,
            r.limit() == 10_000_000,
    {
        Self::new()
    }
}

/// Every index agrees with the stored records: each stored record is listed under its
/// IP, its URL and its status code, and each list holds, oldest first, only stored
/// records that have that key. So `find_by_ip(ip)` returns records from `ip` only.
pub proof fn law_indexes_exact(db: &MemoryDB)
    requires
        db.wf(),
    ensures
        forall|id: u64| #[trigger] db.table().contains_key(id) ==>
            db.ips().contains_key(db.table()[id].ip@) && db.ips()[db.table()[id].ip@].contains(id)
            && db.urls().contains_key(db.table()[id].url@) && db.urls()[db.table()[id].url@].contains(id),
        forall|k: Seq<char>, i: int| db.ips().contains_key(k) && 0 <= i < db.ips()[k].len() ==>
            db.table().contains_key(#[trigger] db.ips()[k][i]) && db.table()[db.ips()[k][i]].ip@ == k,
        forall|k: Seq<char>, i: int| db.urls().contains_key(k) && 0 <= i < db.urls()[k].len() ==>
            db.table().contains_key(#[trigger] db.urls()[k][i]) && db.table()[db.urls()[k][i]].url@ == k,
        forall|k: Seq<char>| #[trigger] db.ips().contains_key(k) ==> increasing(db.ips()[k]),
        forall|k: Seq<char>| #[trigger] db.urls().contains_key(k) ==> increasing(db.urls()[k]),
        forall|c: u16, i: int| db.codes().contains_key(c) && 0 <= i < db.codes()[c].len() ==>
            db.table().contains_key(#[trigger] db.codes()[c][i]) && db.table()[db.codes()[c][i]].status_code == Some(c),
{
    assert forall|id: u64| #[trigger] db.table().contains_key(id) implies
        db.ips().contains_key(db.table()[id].ip@) && db.ips()[db.table()[id].ip@].contains(id)
        && db.urls().contains_key(db.table()[id].url@) && db.urls()[db.table()[id].url@].contains(id) by {
        assert(ip_key(db.table()[id]) == Some(db.table()[id].ip@));
        assert(url_key(db.table()[id]) == Some(db.table()[id].url@));
    }
    assert forall|k: Seq<char>, i: int| db.ips().contains_key(k) && 0 <= i < db.ips()[k].len() implies
        db.table().contains_key(#[trigger] db.ips()[k][i]) && db.table()[db.ips()[k][i]].ip@ == k by {
        assert(ip_key(db.table()[db.ips()[k][i]]) == Some(k));
    }
    assert forall|k: Seq<char>, i: int| db.urls().contains_key(k) && 0 <= i < db.urls()[k].len() implies
        db.table().contains_key(#[trigger] db.urls()[k][i]) && db.table()[db.urls()[k][i]].url@ == k by {
        assert(url_key(db.table()[db.urls()[k][i]]) == Some(k));
    }
}

/// A stored record is found again: after `record` is inserted under `id`, looking up
/// its IP or its URL gives it back, as long as that IP or URL lists at most the 1000
/// records a lookup returns.
pub proof fn law_insert_then_find(old_db: &MemoryDB, new_db: &MemoryDB, record: LogRecord, id: u64, e: Set<u64>)
    requires
        new_db.wf(),
        new_db.table() == old_db.table().remove_keys(e).insert(id, record),
    ensures
        new_db.ips()[record.ip@].len() <= 1000 ==> found(new_db.ips(), new_db.table(), record.ip@).contains(record),
        new_db.urls()[record.url@].len() <= 1000 ==> found(new_db.urls(), new_db.table(), record.url@).contains(record),
{
    law_indexes_exact(new_db);
    let t = new_db.table();
    assert(t.contains_key(id) && t[id] == record);
    let ips = new_db.ips()[record.ip@];
    if ips.len() <= 1000 {
        assert(first_n(ips, 1000) =~= ips);
        let i = choose|i: int| 0 <= i < ips.len() && ips[i] == id;
        assert(found(new_db.ips(), t, record.ip@)[i] == record);
    }
    let urls = new_db.urls()[record.url@];
    if urls.len() <= 1000 {
        assert(first_n(urls, 1000) =~= urls);
        let i = choose|i: int| 0 <= i < urls.len() && urls[i] == id;
        assert(found(new_db.urls(), t, record.url@)[i] == record);
    }
}

/// A sweep over more than 10 000 records leaves none created more than twenty
/// minutes before it, and keeps every other record as it was.
pub proof fn law_sweep_removes_exactly_the_stale(t: Map<u64, LogRecord>, now: SystemTime)
    requires
        t.len() > 10_000,
    ensures
        forall|id: u64| #[trigger] cleaned(t, true, now).contains_key(id) ==> !record_stale(t[id], now),
        forall|id: u64| t.contains_key(id) && !record_stale(t[id], now)
            ==> #[trigger] cleaned(t, true, now).contains_key(id) && cleaned(t, true, now)[id] == t[id],
{
}

/// Inserting into a store that holds at most `limit` records, with a limit of at
/// least 2, leaves at most `limit` records: eviction, and the cleanup after it, keep
/// the store bounded.
pub proof fn law_insert_keeps_bound(db: &MemoryDB, e: Set<u64>, now: SystemTime, record: LogRecord)
    requires
        db.wf(),
        db.table().len() <= db.limit(),
        db.limit() >= 2,
        evicts(db.table(), e, db.limit()),
    ensures
        cleaned(db.table().remove_keys(e), db.cleanup_on(), now).insert(db.next_id(), record).len() <= db.limit(),
{
    let t = db.table();
    let kept = t.remove_keys(e);
    if t.len() < db.limit() {
        assert(kept =~= t);
    } else {
        t.lemma_remove_keys_len(e);
    }
    assert(kept.dom().finite()) by {
        assert(kept.dom().subset_of(t.dom()));
        vstd::set_lib::lemma_len_subset(kept.dom(), t.dom());
    }
    let c = cleaned(kept, db.cleanup_on(), now);
    assert(c.dom().subset_of(kept.dom()));
    assert(c.dom().finite()) by {
        vstd::set_lib::lemma_len_subset(c.dom(), kept.dom());
    }
    vstd::set_lib::lemma_len_subset(c.dom(), kept.dom());
    assert(c.len() < db.limit() || (t.len() < db.limit() && c.len() <= t.len())) by {
        if t.len() >= db.limit() {
            assert(kept.len() < db.limit());
        }
    }
    assert(!c.contains_key(db.next_id()));
    assert(c.insert(db.next_id(), record).dom() =~= c.dom().insert(db.next_id()));
}

} // verus!
