//! Trusted access to the `dashmap` concurrent maps that hold the record store.
//! Each map type is given a name for its contents, and each operation the store
//! uses is stated over that name, as the crate's source shows it.
use vstd::prelude::*;
use dashmap::DashMap;
use crate::memory_db::LogRecord;

verus! {

#[verifier::external_type_specification]
#[verifier::external_body]
#[verifier::reject_recursive_types(K)]
#[verifier::reject_recursive_types(V)]
#[verifier::reject_recursive_types(S)]
pub struct ExDashMap<K, V, S>(dashmap::DashMap<K, V, S>);

/// The records held by a record table, by id.
pub uninterp spec fn record_table(m: DashMap<u64, LogRecord>) -> Map<u64, LogRecord>;

/// The id lists held by an index keyed by strings.
pub uninterp spec fn id_lists(m: DashMap<String, Vec<u64>>) -> Map<Seq<char>, Seq<u64>>;

/// The id lists held by an index keyed by status codes.
pub uninterp spec fn code_lists(m: DashMap<u16, Vec<u64>>) -> Map<u16, Seq<u64>>;

/// The flags held by a set of ids.
pub uninterp spec fn id_flags(m: DashMap<u64, bool>) -> Map<u64, bool>;

/// `s` without the occurrences of `id`, in order.
pub open spec fn without(s: Seq<u64>, id: u64) -> Seq<u64>
    decreases s.len(),
{
    if s.len() == 0 {
        s
    } else if s.last() == id {
        without(s.drop_last(), id)
    } else {
        without(s.drop_last(), id).push(s.last())
    }
}

/// The list under `k` with `id` appended (a fresh list when `k` is absent).
pub open spec fn appended<K>(m: Map<K, Seq<u64>>, k: K, id: u64) -> Map<K, Seq<u64>> {
    m.insert(k, if m.contains_key(k) { m[k].push(id) } else { seq![id] })
}

/// The list under `k`, if any, with `id` removed.
pub open spec fn removed_id<K>(m: Map<K, Seq<u64>>, k: K, id: u64) -> Map<K, Seq<u64>> {
    if m.contains_key(k) { m.insert(k, without(m[k], id)) } else { m }
}

/// `s` lists the keys of `m` exactly once each.
pub open spec fn lists_keys<K, V>(s: Seq<K>, m: Map<K, V>) -> bool {
    &&& s.no_duplicates()
    &&& forall|k: K| s.contains(k) <==> m.contains_key(k)
}

/// `v` without the occurrences of `id`, in order.
pub fn without_ids(v: &Vec<u64>, id: u64) -> (r: Vec<u64>)
    ensures
        r@ == without(v@, id),
{
    let mut r: Vec<u64> = Vec::new();
    let mut i: usize = 0;
    while i < v.len()
        invariant
            i <= v@.len(),
            r@ == without(v@.take(i as int), id),
        decreases v.len() - i,
    {
        assert(v@.take(i as int + 1).drop_last() =~= v@.take(i as int));
        if v[i] != id {
            r.push(v[i]);
        }
        i += 1;
    }
    assert(v@.take(i as int) =~= v@);
    r
}

// ----- record table: DashMap<u64, LogRecord> -----

/// `DashMap::new`: an empty table.
#[verifier::external_body]
pub(crate) fn records_new() -> (r: DashMap<u64, LogRecord>)
    ensures
        record_table(r).dom() == Set::<u64>::empty(),
{
    DashMap::new()
}

/// `DashMap::len`: the number of records.
#[verifier::external_body]
pub(crate) fn records_len(m: &DashMap<u64, LogRecord>) -> (r: usize)
    ensures
        r == record_table(*m).len(),
{
    m.len()
}

/// `DashMap::insert`: stores `v` under `k`, replacing any record there.
#[verifier::external_body]
pub(crate) fn records_insert(m: &mut DashMap<u64, LogRecord>, k: u64, v: LogRecord)
    ensures
        record_table(*final(m)) == record_table(*old(m)).insert(k, v),
{
    m.insert(k, v);
}

/// `DashMap::remove`: takes out the record under `k`, if any.
#[verifier::external_body]
pub(crate) fn records_remove(m: &mut DashMap<u64, LogRecord>, k: u64) -> (r: Option<LogRecord>)
    ensures
        record_table(*final(m)) == record_table(*old(m)).remove(k),
        r == (if record_table(*old(m)).contains_key(k) { Some(record_table(*old(m))[k]) } else { None }),
{
    match m.remove(&k) {
        Some((_, v)) => Some(v),
        None => None,
    }
}

/// `DashMap::get`, cloned: the record under `k`, if any.
#[verifier::external_body]
pub(crate) fn records_get(m: &DashMap<u64, LogRecord>, k: u64) -> (r: Option<LogRecord>)
    ensures
        r == (if record_table(*m).contains_key(k) { Some(record_table(*m)[k]) } else { None }),
{
    match m.get(&k) {
        Some(e) => Some(e.value().clone()),
        None => None,
    }
}

/// `DashMap::iter`, keys only: every id once, in the map's iteration order
/// (which depends on the hasher's random seed, and is not stated).
#[verifier::external_body]
pub(crate) fn records_keys(m: &DashMap<u64, LogRecord>) -> (r: Vec<u64>)
    ensures
        lists_keys(r@, record_table(*m)),
{
    m.iter().map(|e| *e.key()).collect()
}

/// `DashMap::clear`: removes every record.
#[verifier::external_body]
pub(crate) fn records_clear(m: &mut DashMap<u64, LogRecord>)
    ensures
        record_table(*final(m)).dom() == Set::<u64>::empty(),
{
    m.clear();
}

// ----- indexes keyed by strings: DashMap<String, Vec<u64>> -----

/// `DashMap::new`: an empty index.
#[verifier::external_body]
pub(crate) fn index_new() -> (r: DashMap<String, Vec<u64>>)
    ensures
        id_lists(r).dom() == Set::<Seq<char>>::empty(),
{
    DashMap::new()
}

/// `DashMap::len`: the number of keys.
#[verifier::external_body]
pub(crate) fn index_len(m: &DashMap<String, Vec<u64>>) -> (r: usize)
    ensures
        r == id_lists(*m).len(),
{
    m.len()
}

/// `DashMap::remove`: takes out the list under `k`, if any.
#[verifier::external_body]
fn index_take(m: &mut DashMap<String, Vec<u64>>, k: &str) -> (r: Option<Vec<u64>>)
    ensures
        id_lists(*final(m)) == id_lists(*old(m)).remove(k@),
        match r {
            Some(v) => id_lists(*old(m)).contains_key(k@) && v@ == id_lists(*old(m))[k@],
            None => !id_lists(*old(m)).contains_key(k@),
        },
{
    match m.remove(k) {
        Some((_, v)) => Some(v),
        None => None,
    }
}

/// `DashMap::insert`: stores `v` as the list under `k`.
#[verifier::external_body]
fn index_set(m: &mut DashMap<String, Vec<u64>>, k: String, v: Vec<u64>)
    ensures
        id_lists(*final(m)) == id_lists(*old(m)).insert(k@, v@),
{
    m.insert(k, v);
}

/// Appends `id` to the list under `k` (a fresh list when `k` is absent).
pub(crate) fn index_push(m: &mut DashMap<String, Vec<u64>>, k: String, id: u64)
    ensures
        id_lists(*final(m)) == appended(id_lists(*old(m)), k@, id),
{
    let ghost before = id_lists(*m);
    let mut v = match index_take(m, k.as_str()) {
        Some(v) => v,
        None => Vec::new(),
    };
    v.push(id);
    index_set(m, k, v);
    assert(id_lists(*m) =~= appended(before, k@, id));
}

/// Removes `id` from the list under `k`, if there is one.
pub(crate) fn index_remove_id(m: &mut DashMap<String, Vec<u64>>, k: &str, id: u64)
    ensures
        id_lists(*final(m)) == removed_id(id_lists(*old(m)), k@, id),
{
    let ghost before = id_lists(*m);
    match index_take(m, k) {
        Some(v) => {
            let key = crate::text::string_of(crate::text::chars_of(k).as_slice());
            index_set(m, key, without_ids(&v, id));
            assert(id_lists(*m) =~= removed_id(before, k@, id));
        },
        None => {
            assert(id_lists(*m) =~= before);
        },
    }
}

/// `DashMap::get`, cloned: the list under `k`, if any.
#[verifier::external_body]
pub(crate) fn index_get(m: &DashMap<String, Vec<u64>>, k: &str) -> (r: Option<Vec<u64>>)
    ensures
        match r {
            Some(v) => id_lists(*m).contains_key(k@) && v@ == id_lists(*m)[k@],
            None => !id_lists(*m).contains_key(k@),
        },
{
    match m.get(k) {
        Some(e) => Some(e.value().clone()),
        None => None,
    }
}

/// `DashMap::iter`: each key once, with the length of its list, in the map's
/// iteration order (which depends on the hasher's random seed, and is not stated).
#[verifier::external_body]
pub(crate) fn index_sizes(m: &DashMap<String, Vec<u64>>) -> (r: Vec<(String, usize)>)
    ensures
        lists_keys(r@.map_values(|p: (String, usize)| p.0@), id_lists(*m)),
        forall|i: int| 0 <= i < r@.len() ==> #[trigger] r@[i].1 == id_lists(*m)[r@[i].0@].len(),
{
    m.iter().map(|e| (e.key().clone(), e.value().len())).collect()
}

/// `DashMap::clear`: removes every key.
#[verifier::external_body]
pub(crate) fn index_clear(m: &mut DashMap<String, Vec<u64>>)
    ensures
        id_lists(*final(m)).dom() == Set::<Seq<char>>::empty(),
{
    m.clear();
}

// ----- index keyed by status codes: DashMap<u16, Vec<u64>> -----

/// `DashMap::new`: an empty index.
#[verifier::external_body]
pub(crate) fn codes_new() -> (r: DashMap<u16, Vec<u64>>)
    ensures
        code_lists(r).dom() == Set::<u16>::empty(),
{
    DashMap::new()
}

/// `DashMap::len`: the number of codes.
#[verifier::external_body]
pub(crate) fn codes_len(m: &DashMap<u16, Vec<u64>>) -> (r: usize)
    ensures
        r == code_lists(*m).len(),
{
    m.len()
}

/// `DashMap::remove`: takes out the list under `code`, if any.
#[verifier::external_body]
fn codes_take(m: &mut DashMap<u16, Vec<u64>>, code: u16) -> (r: Option<Vec<u64>>)
    ensures
        code_lists(*final(m)) == code_lists(*old(m)).remove(code),
        match r {
            Some(v) => code_lists(*old(m)).contains_key(code) && v@ == code_lists(*old(m))[code],
            None => !code_lists(*old(m)).contains_key(code),
        },
{
    match m.remove(&code) {
        Some((_, v)) => Some(v),
        None => None,
    }
}

/// `DashMap::insert`: stores `v` as the list under `code`.
#[verifier::external_body]
fn codes_set(m: &mut DashMap<u16, Vec<u64>>, code: u16, v: Vec<u64>)
    ensures
        code_lists(*final(m)) == code_lists(*old(m)).insert(code, v@),
{
    m.insert(code, v);
}

/// Appends `id` to the list under `code` (a fresh list when `code` is absent).
pub(crate) fn codes_push(m: &mut DashMap<u16, Vec<u64>>, code: u16, id: u64)
    ensures
        code_lists(*final(m)) == appended(code_lists(*old(m)), code, id),
{
    let ghost before = code_lists(*m);
    let mut v = match codes_take(m, code) {
        Some(v) => v,
        None => Vec::new(),
    };
    v.push(id);
    codes_set(m, code, v);
    assert(code_lists(*m) =~= appended(before, code, id));
}

/// Removes `id` from the list under `code`, if there is one.
pub(crate) fn codes_remove_id(m: &mut DashMap<u16, Vec<u64>>, code: u16, id: u64)
    ensures
        code_lists(*final(m)) == removed_id(code_lists(*old(m)), code, id),
{
    let ghost before = code_lists(*m);
    match codes_take(m, code) {
        Some(v) => {
            codes_set(m, code, without_ids(&v, id));
            assert(code_lists(*m) =~= removed_id(before, code, id));
        },
        None => {
            assert(code_lists(*m) =~= before);
        },
    }
}

/// `DashMap::iter`: each code once, with the length of its list, in the map's
/// iteration order (which depends on the hasher's random seed, and is not stated).
#[verifier::external_body]
pub(crate) fn codes_sizes(m: &DashMap<u16, Vec<u64>>) -> (r: Vec<(u16, usize)>)
    ensures
        lists_keys(r@.map_values(|p: (u16, usize)| p.0), code_lists(*m)),
        forall|i: int| 0 <= i < r@.len() ==> #[trigger] r@[i].1 == code_lists(*m)[r@[i].0].len(),
{
    m.iter().map(|e| (*e.key(), e.value().len())).collect()
}

/// `DashMap::clear`: removes every code.
#[verifier::external_body]
pub(crate) fn codes_clear(m: &mut DashMap<u16, Vec<u64>>)
    ensures
        code_lists(*final(m)).dom() == Set::<u16>::empty(),
{
    m.clear();
}

// ----- set of ids: DashMap<u64, bool> -----

/// `DashMap::new`: an empty set.
#[verifier::external_body]
pub(crate) fn flags_new() -> (r: DashMap<u64, bool>)
    ensures
        id_flags(r).dom() == Set::<u64>::empty(),
{
    DashMap::new()
}

/// `DashMap::len`: the number of ids.
#[verifier::external_body]
pub(crate) fn flags_len(m: &DashMap<u64, bool>) -> (r: usize)
    ensures
        r == id_flags(*m).len(),
{
    m.len()
}

/// `DashMap::insert`: marks `k`.
#[verifier::external_body]
pub(crate) fn flags_insert(m: &mut DashMap<u64, bool>, k: u64, v: bool)
    ensures
        id_flags(*final(m)) == id_flags(*old(m)).insert(k, v),
{
    m.insert(k, v);
}

/// `DashMap::remove`: unmarks `k`.
#[verifier::external_body]
pub(crate) fn flags_remove(m: &mut DashMap<u64, bool>, k: u64)
    ensures
        id_flags(*final(m)) == id_flags(*old(m)).remove(k),
{
    m.remove(&k);
}

/// `DashMap::iter`, keys only: every id once, in the map's iteration order
/// (which depends on the hasher's random seed, and is not stated).
#[verifier::external_body]
pub(crate) fn flags_keys(m: &DashMap<u64, bool>) -> (r: Vec<u64>)
    ensures
        lists_keys(r@, id_flags(*m)),
{
    m.iter().map(|e| *e.key()).collect()
}

/// `DashMap::clear`: unmarks every id.
#[verifier::external_body]
pub(crate) fn flags_clear(m: &mut DashMap<u64, bool>)
    ensures
        id_flags(*final(m)).dom() == Set::<u64>::empty(),
{
    m.clear();
}

} // verus!
