//! Choosing a log file: directory listings (parent entry first, then folders, then
//! files, each group by name) and the keyboard navigation of a file list.
use vstd::prelude::*;
use std::path::PathBuf;
use std::time::SystemTime;
use crate::keys::{KeyCode, KeyInput};
use crate::text::{chars_of, decimal, digit_char, digit, push_decimal, push_str, string_of};

verus! {

/// One row of a directory listing.
#[derive(Clone)]
pub struct FileItem {
    pub name: String,
    pub path: PathBuf,
    pub is_dir: bool,
    pub is_file: bool,
    pub is_parent: bool,
    pub size: Option<u64>,
    pub modified: Option<SystemTime>,
}

/// What the file selector asks for after a key press.
#[derive(Debug)]
pub enum FileSelectorAction {
    Continue,
    FileSelected(PathBuf),
    Cancel,
    Exit,
}


/// 2 to the power `e`.
pub open spec fn pow2(e: nat) -> nat
    decreases e,
{
    if e == 0 { 1 } else { 2 * pow2((e - 1) as nat) }
}

/// The number of binary digits of `n` (0 for 0).
pub open spec fn bit_len(n: nat) -> nat
    decreases n,
{
    if n == 0 { 0 } else { 1 + bit_len(n / 2) }
}

/// `a / b` rounded to the nearest integer, ties to the even one.
pub open spec fn div_round_even(a: nat, b: nat) -> nat {
    let q = a / b;
    let r = a % b;
    if 2 * r > b || (2 * r == b && q % 2 == 1) { q + 1 } else { q }
}

/// The value `n as f64` takes: `n` rounded to 53 significant bits, ties to even.
pub open spec fn as_double(n: nat) -> nat {
    if bit_len(n) <= 53 {
        n
    } else {
        let p = pow2((bit_len(n) - 53) as nat);
        div_round_even(n, p) * p
    }
}

/// The tenths shown when `n as f64 / 2^k` is printed with one decimal (`{:.1}`): the
/// exact quotient rounded to tenths, ties to even.
pub open spec fn tenths(n: nat, k: nat) -> nat {
    div_round_even(10 * as_double(n), pow2(k))
}

/// A number of tenths written with one decimal.
pub open spec fn one_decimal(t: nat) -> Seq<char> {
    decimal(t / 10) + "."@ + seq![digit_char(t % 10)]
}

/// A size in bytes as text: bytes below 1 KiB, then KB, MB or GB (binary units)
/// with one decimal.
pub open spec fn size_text(b: nat) -> Seq<char> {
    if b < 1024 {
        decimal(b) + " B"@
    } else if b < 1048576 {
        one_decimal(tenths(b, 10)) + " KB"@
    } else if b < 1073741824 {
        one_decimal(tenths(b, 20)) + " MB"@
    } else {
        one_decimal(tenths(b, 30)) + " GB"@
    }
}

proof fn lemma_pow2_values()
    ensures
        pow2(10) == 1024,
        pow2(20) == 1048576,
        pow2(30) == 1073741824,
        pow2(11) == 2048,
{
    reveal_with_fuel(pow2, 31);
}

proof fn lemma_pow2_mono(a: nat, b: nat)
    requires
        a <= b,
    ensures
        1 <= pow2(a) <= pow2(b),
    decreases b,
{
    if b == 0 {
    } else if a == b {
        lemma_pow2_mono((b - 1) as nat, (b - 1) as nat);
    } else {
        lemma_pow2_mono(a, (b - 1) as nat);
    }
}

proof fn lemma_bit_len_bound(n: nat, k: nat)
    requires
        n < pow2(k),
    ensures
        bit_len(n) <= k,
    decreases k,
{
    if n > 0 {
        assert(k > 0);
        lemma_bit_len_bound(n / 2, (k - 1) as nat);
    }
}

fn bit_length(n: u64) -> (r: u64)
    ensures
        r == bit_len(n as nat),
        r <= 64,
{
    proof {
        reveal_with_fuel(pow2, 65);
        assert(pow2(64) == 0x1_0000_0000_0000_0000);
        lemma_bit_len_bound(n as nat, 64);
    }
    let mut m = n;
    let mut c: u64 = 0;
    while m > 0
        invariant
            c + bit_len(m as nat) == bit_len(n as nat),
            bit_len(n as nat) <= 64,
        decreases m,
    {
        m = m / 2;
        c = c + 1;
    }
    c
}

fn power_of_two(e: u64) -> (r: u128)
    requires
        e <= 64,
    ensures
        r == pow2(e as nat),
{
    let mut r: u128 = 1;
    let mut i: u64 = 0;
    proof {
        reveal_with_fuel(pow2, 65);
        assert(pow2(64) == 0x1_0000_0000_0000_0000);
    }
    while i < e
        invariant
            i <= e <= 64,
            r == pow2(i as nat),
            pow2(64) == 0x1_0000_0000_0000_0000,
        decreases e - i,
    {
        proof {
            lemma_pow2_mono(i as nat + 1, 64);
            assert(pow2(i as nat + 1) == 2 * pow2(i as nat));
        }
        r = r * 2;
        i = i + 1;
    }
    r
}

fn round_div_even(a: u128, b: u128) -> (r: u128)
    requires
        0 < b,
        b <= 0x1_0000_0000_0000_0000_0000,
        a < 0x1_0000_0000_0000_0000_0000_0000,
    ensures
        r == div_round_even(a as nat, b as nat),
{
    let q = a / b;
    let m = a % b;
    assert(q <= a) by (nonlinear_arith)
        requires q == a / b, b > 0;
    if 2 * m > b || (2 * m == b && q % 2 == 1) { q + 1 } else { q }
}

fn to_double(n: u64) -> (r: u128)
    ensures
        r == as_double(n as nat),
        r <= 0x800_0000_0000_0000_0000,
{
    let l = bit_length(n);
    if l <= 53 {
        n as u128
    } else {
        let p = power_of_two(l - 53);
        proof {
            lemma_pow2_values();
            lemma_pow2_mono((l - 53) as nat, 11);
        }
        let q = round_div_even(n as u128, p);
        proof {
            let qq = (n as nat) / (p as nat);
            assert(qq <= n) by (nonlinear_arith)
                requires qq == (n as nat) / (p as nat), p > 0;
            assert(q * p <= 0x800_0000_0000_0000_0000) by (nonlinear_arith)
                requires q <= qq + 1, qq <= n, n < 0x1_0000_0000_0000_0000, p <= 2048;
        }
        q * p
    }
}

/// A size in bytes as text, in bytes below 1 KiB and otherwise in KB, MB or GB
/// (powers of 1024) with one decimal.
pub fn format_size(bytes: u64) -> (r: String)
    ensures
        r@ == size_text(bytes as nat),
{
    let mut v: Vec<char> = Vec::new();
    if bytes < 1024 {
        push_decimal(&mut v, bytes);
        push_str(&mut v, " B");
        return string_of(v.as_slice());
    }
    let k: u64 = if bytes < 1048576 { 10 } else if bytes < 1073741824 { 20 } else { 30 };
    let d = to_double(bytes);
    let den = power_of_two(k);
    proof { lemma_pow2_values(); }
    let t = round_div_even(10 * d, den);
    proof {
        let a: int = 10 * (d as int);
        let b: int = den as int;
        assert(t as int <= a / b + 1);
        if k == 30 {
            assert(a / b <= 0x1000_0000_0000_0000) by (nonlinear_arith)
                requires a <= 10 * 0x800_0000_0000_0000_0000, b == 1073741824;
        } else {
            lemma_bit_len_bound(bytes as nat, 30);
            assert(d == bytes);
            assert(a / b <= a) by (nonlinear_arith)
                requires a >= 0, b >= 1;
        }
    }
    let t = t as u64;
    push_decimal(&mut v, t / 10);
    v.push('.');
    v.push(digit(t % 10));
    proof { reveal_strlit("."); }
    assert(v@ =~= one_decimal(tenths(bytes as nat, k as nat)));
    if k == 10 {
        push_str(&mut v, " KB");
    } else if k == 20 {
        push_str(&mut v, " MB");
    } else {
        push_str(&mut v, " GB");
    }
    string_of(v.as_slice())
}

/// `a` comes before `b` in the order of characters' code points (the order in which
/// `str` compares, since UTF-8 preserves it).
pub open spec fn text_lt(a: Seq<char>, b: Seq<char>) -> bool
    decreases a.len(),
{
    if a.len() == 0 {
        b.len() > 0
    } else if b.len() == 0 {
        false
    } else if a[0] != b[0] {
        a[0] < b[0]
    } else {
        text_lt(a.drop_first(), b.drop_first())
    }
}

/// Nothing comes before itself.
pub proof fn lemma_text_lt_irreflexive(a: Seq<char>)
    ensures
        !text_lt(a, a),
    decreases a.len(),
{
    if a.len() > 0 {
        lemma_text_lt_irreflexive(a.drop_first());
    }
}

/// The order is transitive.
pub proof fn lemma_text_lt_transitive(a: Seq<char>, b: Seq<char>, c: Seq<char>)
    requires
        text_lt(a, b),
        text_lt(b, c),
    ensures
        text_lt(a, c),
    decreases a.len(),
{
    if a.len() > 0 && b.len() > 0 && c.len() > 0 && a[0] == b[0] && b[0] == c[0] {
        lemma_text_lt_transitive(a.drop_first(), b.drop_first(), c.drop_first());
    }
}

/// Of two different texts, one comes before the other.
pub proof fn lemma_text_lt_total(a: Seq<char>, b: Seq<char>)
    requires
        a != b,
    ensures
        text_lt(a, b) || text_lt(b, a),
    decreases a.len(),
{
    if a.len() > 0 && b.len() > 0 && a[0] == b[0] {
        if a.drop_first() == b.drop_first() {
            assert(a =~= seq![a[0]] + a.drop_first());
            assert(b =~= seq![b[0]] + b.drop_first());
        }
        lemma_text_lt_total(a.drop_first(), b.drop_first());
    } else if a.len() == 0 && b.len() == 0 {
        assert(a =~= b);
    }
}

/// Whether `a` comes before `b` in that order.
pub fn text_less(a: &[char], b: &[char]) -> (r: bool)
    ensures
        r == text_lt(a@, b@),
{
    let mut i: usize = 0;
    assert(a@.skip(0) =~= a@ && b@.skip(0) =~= b@);
    while i < a.len() && i < b.len() && a[i] == b[i]
        invariant
            i <= a@.len(),
            i <= b@.len(),
            text_lt(a@.skip(i as int), b@.skip(i as int)) == text_lt(a@, b@),
        decreases a.len() - i,
    {
        assert(a@.skip(i as int).drop_first() =~= a@.skip(i as int + 1));
        assert(b@.skip(i as int).drop_first() =~= b@.skip(i as int + 1));
        i += 1;
    }
    if i == a.len() {
        i < b.len()
    } else if i == b.len() {
        false
    } else {
        a[i] < b[i]
    }
}

/// `a` is listed before `b`: folders before files, then by name.
pub open spec fn listed_before(a: FileItem, b: FileItem) -> bool {
    (a.is_dir && !b.is_dir) || (a.is_dir == b.is_dir && text_lt(a.name@, b.name@))
}

/// Inserts `x` after every item of the (listed) `s` that `x` is not listed before.
pub open spec fn insert_listed(s: Seq<FileItem>, x: FileItem) -> Seq<FileItem>
    decreases s.len(),
{
    if s.len() == 0 {
        seq![x]
    } else if !listed_before(x, s.last()) {
        s.push(x)
    } else {
        insert_listed(s.drop_last(), x).push(s.last())
    }
}

/// The stable sort of `s` with folders first, then by name (what `sort_by` with
/// that comparison gives).
pub open spec fn listing_order(s: Seq<FileItem>) -> Seq<FileItem>
    decreases s.len(),
{
    if s.len() == 0 {
        s
    } else {
        insert_listed(listing_order(s.drop_last()), s.last())
    }
}

/// `s` is in listing order: no item is listed before an item ahead of it.
pub open spec fn is_listed(s: Seq<FileItem>) -> bool {
    forall|i: int, j: int| 0 <= i < j < s.len() ==> !listed_before(#[trigger] s[j], #[trigger] s[i])
}

proof fn lemma_listed_before_asymmetric(a: FileItem, b: FileItem)
    requires
        listed_before(a, b),
    ensures
        !listed_before(b, a),
{
    if a.is_dir == b.is_dir && text_lt(b.name@, a.name@) {
        lemma_text_lt_transitive(a.name@, b.name@, a.name@);
        lemma_text_lt_irreflexive(a.name@);
    }
}

proof fn lemma_listed_before_split(a: FileItem, b: FileItem, c: FileItem)
    requires
        listed_before(a, c),
    ensures
        listed_before(a, b) || listed_before(b, c),
{
    if a.is_dir == c.is_dir && b.is_dir == a.is_dir {
        if b.name@ != a.name@ && b.name@ != c.name@ {
            lemma_text_lt_total(a.name@, b.name@);
            if text_lt(b.name@, a.name@) {
                lemma_text_lt_transitive(b.name@, a.name@, c.name@);
            }
        }
    }
}

proof fn lemma_insert_listed(s: Seq<FileItem>, x: FileItem)
    requires
        is_listed(s),
    ensures
        is_listed(insert_listed(s, x)),
        insert_listed(s, x).to_multiset() == s.to_multiset().insert(x),
    decreases s.len(),
{
    broadcast use vstd::seq_lib::group_to_multiset_ensures;
    let r = insert_listed(s, x);
    if s.len() == 0 {
        assert(r =~= seq![x]);
        assert(seq![x] =~= Seq::<FileItem>::empty().push(x));
    } else if !listed_before(x, s.last()) {
        assert forall|i: int, j: int| 0 <= i < j < r.len() implies !listed_before(#[trigger] r[j], #[trigger] r[i]) by {
            if j == s.len() {
                if i < s.len() - 1 {
                    assert(!listed_before(s[s.len() - 1], s[i]));
                }
                if listed_before(x, s[i]) {
                    lemma_listed_before_split(x, s.last(), s[i]);
                }
            }
        }
    } else {
        let t = s.drop_last();
        assert(is_listed(t));
        lemma_insert_listed(t, x);
        let w = insert_listed(t, x);
        assert(r == w.push(s.last()));
        assert(s =~= t.push(s.last()));
        assert forall|i: int, j: int| 0 <= i < j < r.len() implies !listed_before(#[trigger] r[j], #[trigger] r[i]) by {
            if j == w.len() {
                let y = w[i];
                assert(w.contains(y));
                assert(w.to_multiset().count(y) > 0);
                if y == x {
                    lemma_listed_before_asymmetric(x, s.last());
                } else {
                    assert(t.to_multiset().count(y) > 0);
                    assert(t.contains(y));
                    let k = choose|k: int| 0 <= k < t.len() && t[k] == y;
                    assert(s[k] == y);
                    assert(!listed_before(s[s.len() - 1], s[k]));
                }
            }
        }
    }
}

/// Listing order puts folders first, then sorts by name, and keeps exactly the
/// items it was given.
pub proof fn law_listing_order_sorted(s: Seq<FileItem>)
    ensures
        is_listed(listing_order(s)),
        listing_order(s).to_multiset() == s.to_multiset(),
    decreases s.len(),
{
    broadcast use vstd::seq_lib::group_to_multiset_ensures;
    if s.len() > 0 {
        law_listing_order_sorted(s.drop_last());
        lemma_insert_listed(listing_order(s.drop_last()), s.last());
        assert(s =~= s.drop_last().push(s.last()));
    }
}

fn before(a: &FileItem, b: &FileItem) -> (r: bool)
    ensures
        r == listed_before(*a, *b),
{
    if a.is_dir && !b.is_dir {
        true
    } else if a.is_dir == b.is_dir {
        text_less(chars_of(a.name.as_str()).as_slice(), chars_of(b.name.as_str()).as_slice())
    } else {
        false
    }
}

proof fn lemma_insert_listed_at(s: Seq<FileItem>, x: FileItem, j: int)
    requires
        0 <= j <= s.len(),
        j > 0 ==> !listed_before(x, s[j - 1]),
        forall|k: int| j <= k < s.len() ==> listed_before(x, #[trigger] s[k]),
    ensures
        insert_listed(s, x) == s.insert(j, x),
    decreases s.len(),
{
    if s.len() == 0 {
        assert(s.insert(j, x) =~= seq![x]);
    } else if !listed_before(x, s.last()) {
        assert(j == s.len());
        assert(s.insert(j, x) =~= s.push(x));
    } else {
        lemma_insert_listed_at(s.drop_last(), x, j);
        assert(s.insert(j, x) =~= s.drop_last().insert(j, x).push(s.last()));
    }
}

/// `items` with folders first, then by name, keeping the order of equal items.
pub fn sort_listing(items: Vec<FileItem>) -> (r: Vec<FileItem>)
    ensures
        r@ == listing_order(items@),
{
    let mut r: Vec<FileItem> = Vec::new();
    let mut rest = items;
    let ghost all = rest@;
    let mut i: usize = 0;
    let n = rest.len();
    let mut src: Vec<FileItem> = Vec::new();
    // Move the items into `src` in reverse so they can be taken from the back in order.
    while rest.len() > 0
        invariant
            rest@.len() + src@.len() == n,
            all.len() == n,
            rest@ == all.take(rest@.len() as int),
            forall|k: int| 0 <= k < src@.len() ==> src@[k] == all[n - 1 - k],
        decreases rest.len(),
    {
        let x = rest.pop().unwrap();
        src.push(x);
    }
    while src.len() > 0
        invariant
            i + src@.len() == n,
            all.len() == n,
            forall|k: int| 0 <= k < src@.len() ==> src@[k] == all[n - 1 - k],
            r@ == listing_order(all.take(i as int)),
        decreases src.len(),
    {
        let x = src.pop().unwrap();
        assert(x == all[i as int]);
        let mut j = r.len();
        while j > 0 && before(&x, &r[j - 1])
            invariant
                j <= r@.len(),
                forall|k: int| j <= k < r@.len() ==> listed_before(x, #[trigger] r@[k]),
            decreases j,
        {
            j -= 1;
        }
        proof {
            lemma_insert_listed_at(r@, x, j as int);
            assert(all.take(i as int + 1).drop_last() =~= all.take(i as int));
        }
        r.insert(j, x);
        i += 1;
    }
    assert(all.take(i as int) =~= all);
    r
}

/// The row of a listing for one directory entry named `name`: "." is left out and
/// ".." becomes the parent row; folders have no size.
pub open spec fn entry_row(name: Seq<char>, is_dir: bool, r: Option<FileItem>, size: Option<u64>, modified: Option<SystemTime>, path: PathBuf) -> bool {
    if is_dir {
        if name == ".."@ {
            r matches Some(it) && it.name@ == ".. (Parent Directory)"@ && it.path == path && it.is_dir && !it.is_file
                && it.is_parent && it.size is None && it.modified is None
        } else if name == "."@ {
            r is None
        } else {
            r matches Some(it) && it.name@ == name && it.path == path && it.is_dir && !it.is_file
                && !it.is_parent && it.size is None && it.modified == modified
        }
    } else {
        r matches Some(it) && it.name@ == name && it.path == path && !it.is_dir && it.is_file
            && !it.is_parent && it.size == size && it.modified == modified
    }
}

/// The listing row for a directory entry, if it gets one.
pub fn entry_item(name: String, path: PathBuf, is_dir: bool, size: Option<u64>, modified: Option<SystemTime>) -> (r: Option<FileItem>)
    ensures
        entry_row(name@, is_dir, r, size, modified, path),
{
    if is_dir {
        let cs = chars_of(name.as_str());
        let is_parent = cs.len() == 2 && cs[0] == '.' && cs[1] == '.';
        let is_current = cs.len() == 1 && cs[0] == '.';
        proof {
            reveal_strlit("..");
            reveal_strlit(".");
            if is_parent { assert(name@ =~= ".."@); } else { assert(name@ != ".."@); }
            if is_current { assert(name@ =~= "."@); } else { assert(name@ != "."@); }
        }
        if is_parent {
            Some(FileItem {
                name: String::from_str(".. (Parent Directory)"),
                path,
                is_dir: true,
                is_file: false,
                is_parent: true,
                size: None,
                modified: None,
            })
        } else if !is_current {
            Some(FileItem { name, path, is_dir: true, is_file: false, is_parent: false, size: None, modified })
        } else {
            None
        }
    } else {
        Some(FileItem { name, path, is_dir: false, is_file: true, is_parent: false, size, modified })
    }
}

/// The row that leads to the parent directory.
pub open spec fn parent_row(it: FileItem, parent: PathBuf) -> bool {
    it.name@ == ".."@ && it.path == parent && it.is_dir && !it.is_file && it.is_parent
        && it.size is None && it.modified is None
}

/// A directory listing: the parent row first when there is a parent directory,
/// then the entries' rows with folders first, each group by name.
pub fn directory_listing(parent: Option<PathBuf>, entries: Vec<FileItem>) -> (r: Vec<FileItem>)
    ensures
        match parent {
            Some(p) => r@.len() >= 1 && parent_row(r@[0], p) && r@.skip(1) == listing_order(entries@),
            None => r@ == listing_order(entries@),
        },
{
    let sorted = sort_listing(entries);
    match parent {
        Some(p) => {
            let mut r: Vec<FileItem> = Vec::new();
            r.push(FileItem {
                name: String::from_str(".."),
                path: p,
                is_dir: true,
                is_file: false,
                is_parent: true,
                size: None,
                modified: None,
            });
            let mut sorted = sorted;
            r.append(&mut sorted);
            assert(r@.skip(1) =~= listing_order(entries@));
            r
        },
        None => sorted,
    }
}

/// What a key does to the selected row of a list of `rows` rows: Up/k and Down/j move
/// by one, PageUp/PageDown by ten, Home and End go to the ends.
pub open spec fn list_step(selected: int, rows: int, code: KeyCode) -> int {
    let last = if rows > 0 { rows - 1 } else { 0 };
    match code {
        KeyCode::Up => if selected > 0 { selected - 1 } else { selected },
        KeyCode::Char('k') => if selected > 0 { selected - 1 } else { selected },
        KeyCode::Down => if selected < last { selected + 1 } else { selected },
        KeyCode::Char('j') => if selected < last { selected + 1 } else { selected },
        KeyCode::PageUp => if selected >= 10 { selected - 10 } else { 0 },
        KeyCode::PageDown => if selected + 10 <= last { selected + 10 } else { last },
        KeyCode::Home => 0,
        KeyCode::End => last,
        _ => selected,
    }
}

/// The listing begins with the row of the parent directory (as `directory_listing`
/// puts it first when there is a parent).
pub open spec fn has_parent_row(rows: Seq<FileItem>) -> bool {
    rows.len() > 0 && rows[0].is_parent
}

/// What the selector asks the caller to do besides answering: open a directory, or
/// open the parent of the current one.
pub enum SelectorRequest {
    Stay,
    OpenDirectory(PathBuf),
    OpenParent,
}

/// A list of files to choose from.
pub struct FileSelector {
    current_path: PathBuf,
    items: Vec<FileItem>,
    selected_index: usize,
}

impl FileSelector {
    /// The directory shown.
    pub closed spec fn directory(&self) -> PathBuf {
        self.current_path
    }

    /// The rows shown.
    pub closed spec fn rows(&self) -> Seq<FileItem> {
        self.items@
    }

    /// The selected row.
    pub closed spec fn selected(&self) -> int {
        self.selected_index as int
    }

    /// A selector showing `items`, the rows of `current_path`, first row selected.
    pub fn with_listing(current_path: PathBuf, items: Vec<FileItem>) -> (r: Self)
        ensures
            r.directory() == current_path,
            r.rows() == items@,
            r.selected() == 0,
    {
        FileSelector { current_path, items, selected_index: 0 }
    }

    /// Shows `items`, the rows of `path`, with the first row selected.
    pub fn show_directory(&mut self, path: PathBuf, items: Vec<FileItem>)
        ensures
            final(self).directory() == path,
            final(self).rows() == items@,
            final(self).selected() == 0,
    {
        self.current_path = path;
        self.items = items;
        self.selected_index = 0;
    }

    /// Handles a key press: moves the selection, chooses the selected file, asks to
    /// open the selected folder (Enter) or the parent folder (h, and Esc when the
    /// listing has a parent row), or gives up (Esc at the top, q, or Control-C to quit).
    pub fn handle_input(&mut self, key: KeyInput) -> (r: (FileSelectorAction, SelectorRequest))
        ensures
            final(self).directory() == old(self).directory(),
            final(self).rows() == old(self).rows(),
            final(self).selected() == list_step(old(self).selected(), old(self).rows().len() as int, key.code),
            match key.code {
                KeyCode::Enter => {
                    let sel = old(self).selected();
                    if 0 <= sel < old(self).rows().len() {
                        let it = old(self).rows()[sel];
                        if it.is_parent || it.is_dir {
                            r.0 is Continue && (r.1 matches SelectorRequest::OpenDirectory(p) && p == it.path)
                        } else if it.is_file {
                            (r.0 matches FileSelectorAction::FileSelected(p) && p == it.path) && r.1 is Stay
                        } else {
                            r.0 is Continue && r.1 is Stay
                        }
                    } else {
                        r.0 is Continue && r.1 is Stay
                    }
                },
                KeyCode::Char('h') => r.0 is Continue && r.1 is OpenParent,
                KeyCode::Esc => if has_parent_row(old(self).rows()) {
                    r.0 is Continue && r.1 is OpenParent
                } else {
                    r.0 is Cancel && r.1 is Stay
                },
                KeyCode::Char('q') => r.0 is Cancel && r.1 is Stay,
                KeyCode::Char('c') => (if key.ctrl { r.0 is Exit } else { r.0 is Continue }) && r.1 is Stay,
                _ => r.0 is Continue && r.1 is Stay,
            },
    {
        let len = self.items.len();
        let last: usize = if len > 0 { len - 1 } else { 0 };
        match key.code {
            KeyCode::Up | KeyCode::Char('k') => {
                if self.selected_index > 0 {
                    self.selected_index = self.selected_index - 1;
                }
                (FileSelectorAction::Continue, SelectorRequest::Stay)
            },
            KeyCode::Down | KeyCode::Char('j') => {
                if self.selected_index < last {
                    self.selected_index = self.selected_index + 1;
                }
                (FileSelectorAction::Continue, SelectorRequest::Stay)
            },
            KeyCode::PageUp => {
                if self.selected_index >= 10 {
                    self.selected_index = self.selected_index - 10;
                } else {
                    self.selected_index = 0;
                }
                (FileSelectorAction::Continue, SelectorRequest::Stay)
            },
            KeyCode::PageDown => {
                if self.selected_index <= last && last - self.selected_index >= 10 {
                    self.selected_index = self.selected_index + 10;
                } else {
                    self.selected_index = last;
                }
                (FileSelectorAction::Continue, SelectorRequest::Stay)
            },
            KeyCode::Home => {
                self.selected_index = 0;
                (FileSelectorAction::Continue, SelectorRequest::Stay)
            },
            KeyCode::End => {
                self.selected_index = last;
                (FileSelectorAction::Continue, SelectorRequest::Stay)
            },
            KeyCode::Char('h') => (FileSelectorAction::Continue, SelectorRequest::OpenParent),
            KeyCode::Enter => {
                if self.selected_index < self.items.len() {
                    let it = &self.items[self.selected_index];
                    if it.is_parent || it.is_dir {
                        (FileSelectorAction::Continue, SelectorRequest::OpenDirectory(it.path.clone()))
                    } else if it.is_file {
                        (FileSelectorAction::FileSelected(it.path.clone()), SelectorRequest::Stay)
                    } else {
                        (FileSelectorAction::Continue, SelectorRequest::Stay)
                    }
                } else {
                    (FileSelectorAction::Continue, SelectorRequest::Stay)
                }
            },
            KeyCode::Esc => {
                if self.items.len() > 0 && self.items[0].is_parent {
                    (FileSelectorAction::Continue, SelectorRequest::OpenParent)
                } else {
                    (FileSelectorAction::Cancel, SelectorRequest::Stay)
                }
            },
            KeyCode::Char('q') => (FileSelectorAction::Cancel, SelectorRequest::Stay),
            KeyCode::Char('c') => {
                if key.ctrl {
                    (FileSelectorAction::Exit, SelectorRequest::Stay)
                } else {
                    (FileSelectorAction::Continue, SelectorRequest::Stay)
                }
            },
            _ => (FileSelectorAction::Continue, SelectorRequest::Stay),
        }
    }

    /// The rows shown.
    pub fn items(&self) -> (r: &Vec<FileItem>)
        ensures
            r@ == self.rows(),
    {
        &self.items
    }

    /// The selected row.
    pub fn selected_index(&self) -> (r: usize)
        ensures
            r == self.selected(),
    {
        self.selected_index
    }

    /// The directory shown.
    pub fn current_path(&self) -> (r: &PathBuf)
        ensures
            *r == self.directory(),
    {
        &self.current_path
    }
}

} // verus!
