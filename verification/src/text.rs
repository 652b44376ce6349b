use vstd::prelude::*;

verus! {

// ---------------------------------------------------------------------------
// Conversions between `str` / `String` and sequences of characters.
// ---------------------------------------------------------------------------

/// The characters of `s`, in order.
pub fn chars_of(s: &str) -> (r: Vec<char>)
    ensures
        r@ == s@,
{
    broadcast use vstd::string::group_string_axioms;
    let mut r: Vec<char> = Vec::new();
    for c in it: s.chars()
        invariant
            it.seq() == s@,
            r@ == it.seq().take(it.index() as int),
    {
        let ghost prev = r@;
        r.push(c);
        assert(it.seq().take(it.index() as int + 1) =~= prev.push(c));
    }
    r
}

/// The string made of the characters `cs`, in order (`FromIterator<char>` for `String`).
#[verifier::external_body]
pub(crate) fn string_of(cs: &[char]) -> (r: String)
    ensures
        r@ == cs@,
{
    cs.iter().collect()
}

/// The Unicode lower-case mapping of a string, as `str::to_lowercase` computes it.
pub uninterp spec fn lowercase(s: Seq<char>) -> Seq<char>;

/// Every character of `s` is ASCII.
pub open spec fn all_ascii(s: Seq<char>) -> bool {
    forall|i: int| 0 <= i < s.len() ==> (#[trigger] s[i] as u32) < 128
}

/// `c` with the ASCII capitals `A`-`Z` turned into `a`-`z`.
pub open spec fn ascii_lower_char(c: char) -> char {
    if 'A' <= c && c <= 'Z' { ((c as u32) + 32) as char } else { c }
}

/// `str::to_lowercase`: the result is the Unicode lower-case mapping of `s` (named
/// `lowercase`; the Unicode case tables it depends on are not restated). On ASCII
/// text the mapping is stated: the capitals `A`-`Z` become `a`-`z` and every other
/// character stays.
#[verifier::external_body]
pub(crate) fn to_lowercase(s: &str) -> (r: String)
    ensures
        r@ == lowercase(s@),
        all_ascii(s@) ==> r@ == s@.map_values(|c: char| ascii_lower_char(c)),
{
    s.to_lowercase()
}

/// Whether `c` has the Unicode `White_Space` property (what `char::is_whitespace`
/// tests): the tab, line feed, vertical tab, form feed and carriage return, the
/// space, U+0085, U+00A0, U+1680, U+2000 to U+200A, U+2028, U+2029, U+202F, U+205F
/// and U+3000.
pub open spec fn is_white(c: char) -> bool {
    let n = c as u32;
    ||| 0x09 <= n <= 0x0d
    ||| n == 0x20
    ||| n == 0x85
    ||| n == 0xa0
    ||| n == 0x1680
    ||| 0x2000 <= n <= 0x200a
    ||| n == 0x2028
    ||| n == 0x2029
    ||| n == 0x202f
    ||| n == 0x205f
    ||| n == 0x3000
}

/// Whether `c` is white space, as `char::is_whitespace` decides it.
pub fn char_is_whitespace(c: char) -> (r: bool)
    ensures
        r == is_white(c),
{
    let n = c as u32;
    (0x09 <= n && n <= 0x0d) || n == 0x20 || n == 0x85 || n == 0xa0 || n == 0x1680
        || (0x2000 <= n && n <= 0x200a) || n == 0x2028 || n == 0x2029 || n == 0x202f
        || n == 0x205f || n == 0x3000
}

// ---------------------------------------------------------------------------
// Substrings.
// ---------------------------------------------------------------------------

/// `p` occurs in `s` at position `i`.
pub open spec fn occurs_at(s: Seq<char>, p: Seq<char>, i: int) -> bool {
    0 <= i && i + p.len() <= s.len() && s.subrange(i, i + p.len()) == p
}

/// `p` occurs somewhere in `s` (the meaning of `str::contains` with a string pattern).
pub open spec fn contains_sub(s: Seq<char>, p: Seq<char>) -> bool {
    exists|i: int| occurs_at(s, p, i)
}

/// Whether `p` occurs at position `i` of `s`.
pub fn matches_at(s: &[char], p: &[char], i: usize) -> (r: bool)
    ensures
        r == occurs_at(s@, p@, i as int),
{
    if i > s.len() || p.len() > s.len() - i {
        return false;
    }
    let n = s.len();
    let mut j: usize = 0;
    while j < p.len()
        invariant
            n == s@.len(),
            i <= s@.len(),
            i + p@.len() <= s@.len(),
            j <= p@.len(),
            forall|k: int| 0 <= k < j ==> s@[i + k] == p@[k],
        decreases p.len() - j,
    {
        assert(i + j < n);
        if s[i + j] != p[j] {
            assert(s@.subrange(i as int, i + p@.len())[j as int] != p@[j as int]);
            return false;
        }
        j += 1;
    }
    assert(s@.subrange(i as int, i + p@.len()) =~= p@);
    true
}

/// Whether `p` occurs in `s`.
pub fn contains(s: &[char], p: &[char]) -> (r: bool)
    ensures
        r == contains_sub(s@, p@),
{
    if p.len() > s.len() {
        assert forall|i: int| !occurs_at(s@, p@, i) by {}
        return false;
    }
    let last = s.len() - p.len();
    let mut i: usize = 0;
    loop
        invariant
            last == s@.len() - p@.len(),
            i <= last,
            forall|k: int| 0 <= k < i ==> !occurs_at(s@, p@, k),
        decreases last - i,
    {
        if matches_at(s, p, i) {
            return true;
        }
        if i == last {
            assert forall|k: int| !occurs_at(s@, p@, k) by {
                if 0 <= k && k < i {
                } else if k == i {
                }
            }
            return false;
        }
        i += 1;
    }
}

/// The patterns of `pats` that occur in `line`, in the order of `pats`.
pub open spec fn hits(line: Seq<char>, pats: Seq<Seq<char>>) -> Seq<Seq<char>>
    decreases pats.len(),
{
    if pats.len() == 0 {
        Seq::empty()
    } else {
        let h = hits(line, pats.drop_last());
        if contains_sub(line, pats.last()) {
            h.push(pats.last())
        } else {
            h
        }
    }
}

/// The hits are taken from the patterns, so among distinct patterns each is found at most once.
pub proof fn lemma_hits_distinct(line: Seq<char>, pats: Seq<Seq<char>>)
    ensures
        hits(line, pats).len() <= pats.len(),
        forall|x: Seq<char>| hits(line, pats).contains(x) ==> pats.contains(x),
        pats.no_duplicates() ==> hits(line, pats).no_duplicates(),
    decreases pats.len(),
{
    if pats.len() > 0 {
        let q = pats.drop_last();
        lemma_hits_distinct(line, q);
        let h = hits(line, q);
        assert forall|x: Seq<char>| hits(line, pats).contains(x) implies pats.contains(x) by {
            let i = choose|i: int| 0 <= i < hits(line, pats).len() && hits(line, pats)[i] == x;
            if i < h.len() {
                assert(hits(line, pats)[i] == h[i]);
                assert(h.contains(x));
                assert(q.contains(x));
                let j = choose|j: int| 0 <= j < q.len() && q[j] == x;
                assert(pats[j] == x);
            } else {
                assert(pats[pats.len() - 1] == x);
            }
        }
        if pats.no_duplicates() && contains_sub(line, pats.last()) {
            assert(q.no_duplicates()) by {
                assert forall|a: int, b: int| 0 <= a < q.len() && 0 <= b < q.len() && a != b implies q[a] != q[b] by {
                    assert(q[a] == pats[a] && q[b] == pats[b]);
                }
            }
            if h.contains(pats.last()) {
                assert(q.contains(pats.last()));
                let j = choose|j: int| 0 <= j < q.len() && q[j] == pats.last();
                assert(pats[j] == pats[pats.len() - 1]);
            }
            assert(!h.contains(pats.last()));
            assert forall|a: int, b: int| 0 <= a < h.len() + 1 && 0 <= b < h.len() + 1 && a != b implies
                h.push(pats.last())[a] != h.push(pats.last())[b] by {
                if a < h.len() && b == h.len() {
                    assert(h.contains(h[a]));
                } else if b < h.len() && a == h.len() {
                    assert(h.contains(h[b]));
                }
            }
        } else if pats.no_duplicates() {
            assert(q.no_duplicates()) by {
                assert forall|a: int, b: int| 0 <= a < q.len() && 0 <= b < q.len() && a != b implies q[a] != q[b] by {
                    assert(q[a] == pats[a] && q[b] == pats[b]);
                }
            }
        }
    }
}

/// The patterns of `pats` that occur in `line`, in order.
pub fn find_hits(line: &[char], pats: &Vec<&'static str>) -> (r: Vec<&'static str>)
    ensures
        r@.map_values(|s: &str| s@) == hits(line@, pats@.map_values(|s: &str| s@)),
{
    let ghost pv = pats@.map_values(|s: &str| s@);
    let mut r: Vec<&'static str> = Vec::new();
    let mut i: usize = 0;
    while i < pats.len()
        invariant
            pv == pats@.map_values(|s: &str| s@),
            i <= pats@.len(),
            r@.map_values(|s: &str| s@) == hits(line@, pv.take(i as int)),
        decreases pats.len() - i,
    {
        let pc = chars_of(pats[i]);
        assert(pv.take(i as int + 1).drop_last() =~= pv.take(i as int));
        assert(pv.take(i as int + 1).last() == pc@);
        if contains(line, pc.as_slice()) {
            let ghost prev = r@;
            r.push(pats[i]);
            assert(r@.map_values(|s: &str| s@) =~= prev.map_values(|s: &str| s@).push(pc@));
        }
        i += 1;
    }
    assert(pv.take(i as int) =~= pv);
    r
}

/// Whether `s` begins with `p`.
pub fn starts_with(s: &[char], p: &[char]) -> (r: bool)
    ensures
        r == occurs_at(s@, p@, 0),
{
    matches_at(s, p, 0)
}
/// Position of the first occurrence of `c` in `s` (`str::find` with a character).
pub fn find_char(s: &[char], c: char) -> (r: Option<usize>)
    ensures
        match r {
            Some(i) => i < s@.len() && s@[i as int] == c && forall|j: int| 0 <= j < i ==> s@[j] != c,
            None => forall|j: int| 0 <= j < s@.len() ==> s@[j] != c,
        },
{
    let mut i: usize = 0;
    while i < s.len()
        invariant
            i <= s@.len(),
            forall|j: int| 0 <= j < i ==> s@[j] != c,
        decreases s.len() - i,
    {
        if s[i] == c {
            return Some(i);
        }
        i += 1;
    }
    None
}

/// A copy of `s[from..to]`.
pub fn slice_to_vec(s: &[char], from: usize, to: usize) -> (r: Vec<char>)
    requires
        from <= to <= s@.len(),
    ensures
        r@ == s@.subrange(from as int, to as int),
{
    let mut r: Vec<char> = Vec::new();
    let mut i = from;
    while i < to
        invariant
            from <= i <= to <= s@.len(),
            r@ == s@.subrange(from as int, i as int),
        decreases to - i,
    {
        r.push(s[i]);
        i += 1;
        assert(r@ =~= s@.subrange(from as int, i as int));
    }
    r
}

// ---------------------------------------------------------------------------
// Decimal numerals.
// ---------------------------------------------------------------------------

/// The ASCII digit for `d < 10`.
pub open spec fn digit_char(d: nat) -> char {
    ((d + 48) as u8) as char
}

/// The decimal numeral of `n`, without sign or leading zeros.
pub open spec fn decimal(n: nat) -> Seq<char>
    decreases n,
{
    if n < 10 {
        seq![digit_char(n)]
    } else {
        decimal(n / 10).push(digit_char(n % 10))
    }
}

/// The character of decimal digit `d`.
pub fn digit(d: u64) -> (c: char)
    requires
        d < 10,
    ensures
        c == digit_char(d as nat),
{
    if d == 0 { '0' } else if d == 1 { '1' } else if d == 2 { '2' } else if d == 3 { '3' }
    else if d == 4 { '4' } else if d == 5 { '5' } else if d == 6 { '6' } else if d == 7 { '7' }
    else if d == 8 { '8' } else { '9' }
}

/// Appends the decimal numeral of `n` to `out`.
pub fn push_decimal(out: &mut Vec<char>, n: u64)
    ensures
        final(out)@ == old(out)@ + decimal(n as nat),
    decreases n,
{
    if n < 10 {
        out.push(digit(n));
        assert(decimal(n as nat) =~= seq![digit_char(n as nat)]);
    } else {
        push_decimal(out, n / 10);
        out.push(digit(n % 10));
    }
}

/// Reading back the decimal numeral of a number gives the number: the numeral is a
/// non-empty string of ASCII digits (so it starts with no sign) whose value is `n`.
pub proof fn law_decimal_reads_back(n: nat)
    ensures
        decimal(n).len() > 0,
        forall|i: int| 0 <= i < decimal(n).len() ==> is_digit(#[trigger] decimal(n)[i]),
        digits_value(decimal(n)) == n,
        unsigned_value(decimal(n)) == Some(n),
    decreases n,
{
    if n < 10 {
        assert(((n + 48) as u8) as u32 == n + 48);
        assert(digit_char(n) as u32 == n + 48);
        assert(decimal(n).drop_last() =~= Seq::<char>::empty());
        assert(digits_value(decimal(n).drop_last()) == 0);
        assert(decimal(n).last() == digit_char(n));
        assert(digits_value(decimal(n)) == n);
    } else {
        law_decimal_reads_back(n / 10);
        let d = decimal(n);
        let p = decimal(n / 10);
        assert(d.drop_last() =~= p);
        assert((((n % 10) + 48) as u8) as u32 == (n % 10) + 48);
        assert(digit_char(n % 10) as u32 == (n % 10) + 48);
        assert(d.last() == digit_char(n % 10));
        assert forall|i: int| 0 <= i < d.len() implies is_digit(#[trigger] d[i]) by {
            if i < p.len() {
                assert(d[i] == p[i]);
            }
        }
        assert(digits_value(d) == digits_value(p) * 10 + n % 10);
    }
    let d = decimal(n);
    assert(is_digit(d[0]));
    assert(unsigned_body(d) == d);
}

/// The decimal numeral of `n` (what `n.to_string()` gives).
pub fn u64_to_string(n: u64) -> (r: String)
    ensures
        r@ == decimal(n as nat),
{
    let mut v: Vec<char> = Vec::new();
    push_decimal(&mut v, n);
    assert(v@ =~= decimal(n as nat));
    string_of(v.as_slice())
}

// ---------------------------------------------------------------------------
// Parsing of unsigned integers, as `FromStr` for the unsigned integer types does it.
// ---------------------------------------------------------------------------

/// `c` is an ASCII digit.
pub open spec fn is_digit(c: char) -> bool {
    '0' <= c && c <= '9'
}

/// The value of a string of ASCII digits.
pub open spec fn digits_value(s: Seq<char>) -> nat
    decreases s.len(),
{
    if s.len() == 0 {
        0
    } else {
        digits_value(s.drop_last()) * 10 + ((s.last() as u32 - 48) as nat)
    }
}

/// The digits that follow an optional leading `+`.
pub open spec fn unsigned_body(s: Seq<char>) -> Seq<char> {
    if s.len() > 0 && s[0] == '+' { s.skip(1) } else { s }
}

/// The value `FromStr` reads from `s` for an unsigned type of unbounded width:
/// an optional `+` followed by one or more ASCII digits.
pub open spec fn unsigned_value(s: Seq<char>) -> Option<nat> {
    let b = unsigned_body(s);
    if b.len() > 0 && forall|i: int| 0 <= i < b.len() ==> is_digit(#[trigger] b[i]) {
        Some(digits_value(b))
    } else {
        None
    }
}

/// The result of `s.parse::<u64>()`, as an option.
pub open spec fn parse_u64_spec(s: Seq<char>) -> Option<u64> {
    match unsigned_value(s) {
        Some(v) => if v <= u64::MAX { Some(v as u64) } else { None },
        None => None,
    }
}

/// The result of `s.parse::<u16>()`, as an option.
pub open spec fn parse_u16_spec(s: Seq<char>) -> Option<u16> {
    match unsigned_value(s) {
        Some(v) => if v <= u16::MAX { Some(v as u16) } else { None },
        None => None,
    }
}

proof fn lemma_digits_value_prefix(s: Seq<char>, i: int)
    requires
        0 <= i < s.len(),
    ensures
        digits_value(s.subrange(0, i + 1)) == digits_value(s.subrange(0, i)) * 10 + ((s[i] as u32 - 48) as nat),
{
    assert(s.subrange(0, i + 1).drop_last() =~= s.subrange(0, i));
}

/// Reads an unsigned number, bounded by `max`, from `s` as `FromStr` does.
fn parse_bounded(s: &[char], max: u64) -> (r: Option<u64>)
    requires
        max >= 9,
    ensures
        match unsigned_value(s@) {
            Some(v) => if v <= max { r == Some(v as u64) } else { r is None },
            None => r is None,
        },
{
    let start: usize = if s.len() > 0 && s[0] == '+' { 1 } else { 0 };
    let ghost b = unsigned_body(s@);
    assert(b =~= s@.subrange(start as int, s@.len() as int));
    if start >= s.len() {
        assert(b.len() == 0);
        return None;
    }
    let mut i = start;
    let mut acc: u64 = 0;
    let mut overflow = false;
    while i < s.len()
        invariant
            start <= i <= s@.len(),
            b == unsigned_body(s@),
            b =~= s@.subrange(start as int, s@.len() as int),
            forall|k: int| start <= k < i ==> is_digit(s@[k]),
            !overflow ==> acc == digits_value(b.subrange(0, i - start)),
            !overflow ==> acc <= max,
            overflow ==> digits_value(b.subrange(0, i - start)) > max,
            max >= 9,
        decreases s.len() - i,
    {
        let c = s[i];
        if !('0' <= c && c <= '9') {
            assert(b[i - start] == c);
            assert(!is_digit(b[i - start]));
            assert(unsigned_value(s@) is None);
            return None;
        }
        let d: u64 = (c as u32 - 48) as u64;
        proof {
            lemma_digits_value_prefix(b, i - start);
            assert(b[i - start] == c);
        }
        if !overflow {
            if acc > (max - d) / 10 {
                overflow = true;
                assert(acc * 10 + d > max) by (nonlinear_arith)
                    requires acc > (max - d) / 10, d <= 9, d <= max || true;
            } else {
                assert(acc * 10 + d <= max) by (nonlinear_arith)
                    requires acc <= (max - d) / 10, d <= max;
                acc = acc * 10 + d;
            }
        } else {
            assert(digits_value(b.subrange(0, i - start + 1)) > max) by (nonlinear_arith)
                requires
                    digits_value(b.subrange(0, i - start)) > max,
                    digits_value(b.subrange(0, i - start + 1)) == digits_value(b.subrange(0, i - start)) * 10 + d;
        }
        i += 1;
    }
    assert(b.subrange(0, i - start) =~= b);
    if overflow { None } else { Some(acc) }
}

/// `s.parse::<u64>().ok()`.
pub fn parse_u64(s: &[char]) -> (r: Option<u64>)
    ensures
        r == parse_u64_spec(s@),
{
    parse_bounded(s, u64::MAX)
}

/// `s.parse::<u16>().ok()`.
pub fn parse_u16(s: &[char]) -> (r: Option<u16>)
    ensures
        r == parse_u16_spec(s@),
{
    match parse_bounded(s, 65535) {
        Some(v) => Some(v as u16),
        None => None,
    }
}


// ---------------------------------------------------------------------------
// Whitespace: words and trimming.
// ---------------------------------------------------------------------------

/// The maximal runs of non-whitespace characters of `s`, in order (what
/// `str::split_whitespace` yields).
pub open spec fn words(s: Seq<char>) -> Seq<Seq<char>>
    decreases s.len(),
{
    if s.len() == 0 {
        Seq::empty()
    } else {
        let w = words(s.drop_last());
        let c = s.last();
        if is_white(c) {
            w
        } else if s.len() >= 2 && !is_white(s[s.len() - 2]) && w.len() > 0 {
            w.update(w.len() - 1, w.last().push(c))
        } else {
            w.push(seq![c])
        }
    }
}
/// The words of `s`, in order.
pub fn split_words(s: &[char]) -> (r: Vec<Vec<char>>)
    ensures
        r@.map_values(|w: Vec<char>| w@) == words(s@),
{
    let mut r: Vec<Vec<char>> = Vec::new();
    let mut i: usize = 0;
    while i < s.len()
        invariant
            i <= s@.len(),
            r@.map_values(|w: Vec<char>| w@) == words(s@.take(i as int)),
        decreases s.len() - i,
    {
        let c = s[i];
        let ghost prev = s@.take(i as int);
        let ghost wv = r@.map_values(|w: Vec<char>| w@);
        assert(s@.take(i as int + 1).drop_last() =~= prev);
        assert(s@.take(i as int + 1).last() == c);
        if char_is_whitespace(c) {
        } else if i >= 1 && !char_is_whitespace(s[i - 1]) && r.len() > 0 {
            assert(s@.take(i as int + 1)[i - 1] == s@[i - 1]);
            let last = r.len() - 1;
            let mut w = r[last].clone();
            w.push(c);
            r.set(last, w);
            assert(r@.map_values(|w: Vec<char>| w@) =~= wv.update(wv.len() - 1, wv.last().push(c)));
        } else {
            if i >= 1 {
                assert(s@.take(i as int + 1)[i - 1] == s@[i - 1]);
            }
            let mut w: Vec<char> = Vec::new();
            w.push(c);
            r.push(w);
            assert(r@.map_values(|w: Vec<char>| w@) =~= wv.push(seq![c]));
        }
        i += 1;
    }
    assert(s@.take(i as int) =~= s@);
    r
}

/// `s` without its trailing whitespace.
pub open spec fn trim_end(s: Seq<char>) -> Seq<char>
    decreases s.len(),
{
    if s.len() > 0 && is_white(s.last()) {
        trim_end(s.drop_last())
    } else {
        s
    }
}

/// `s` without its leading whitespace.
pub open spec fn trim_start(s: Seq<char>) -> Seq<char>
    decreases s.len(),
{
    if s.len() > 0 && is_white(s[0]) {
        trim_start(s.drop_first())
    } else {
        s
    }
}

/// `s` without leading and trailing whitespace (`str::trim`).
pub open spec fn trim(s: Seq<char>) -> Seq<char> {
    trim_start(trim_end(s))
}

/// `s` without leading and trailing whitespace.
pub fn trim_chars(s: &[char]) -> (r: Vec<char>)
    ensures
        r@ == trim(s@),
{
    let mut end: usize = s.len();
    assert(s@.take(end as int) =~= s@);
    while end > 0 && char_is_whitespace(s[end - 1])
        invariant
            end <= s@.len(),
            trim_end(s@.take(end as int)) == trim_end(s@),
        decreases end,
    {
        assert(s@.take(end as int).drop_last() =~= s@.take(end as int - 1));
        end -= 1;
    }
    let ghost e = s@.take(end as int);
    assert(trim_end(e) == e);
    let mut start: usize = 0;
    while start < end && char_is_whitespace(s[start])
        invariant
            start <= end <= s@.len(),
            e == s@.take(end as int),
            trim_start(s@.subrange(start as int, end as int)) == trim_start(e),
        decreases end - start,
    {
        assert(s@.subrange(start as int, end as int).drop_first() =~= s@.subrange(start as int + 1, end as int));
        start += 1;
    }
    assert(s@.subrange(0, end as int) =~= e);
    let r = slice_to_vec(s, start, end);
    proof {
        let t = s@.subrange(start as int, end as int);
        if t.len() > 0 {
            assert(t[0] == s@[start as int]);
        }
        assert(trim_start(t) == t);
    }
    r
}

/// Appends the characters of `s` to `out`.
pub fn push_str(out: &mut Vec<char>, s: &str)
    ensures
        final(out)@ == old(out)@ + s@,
{
    let cs = chars_of(s);
    let mut i: usize = 0;
    while i < cs.len()
        invariant
            i <= cs@.len(),
            cs@ == s@,
            out@ == old(out)@ + cs@.take(i as int),
        decreases cs.len() - i,
    {
        out.push(cs[i]);
        assert(old(out)@ + cs@.take(i as int + 1) =~= (old(out)@ + cs@.take(i as int)).push(cs@[i as int]));
        i += 1;
    }
    assert(cs@.take(i as int) =~= cs@);
}

/// Appends the characters `cs` to `out`.
pub fn push_chars(out: &mut Vec<char>, cs: &[char])
    ensures
        final(out)@ == old(out)@ + cs@,
{
    let mut i: usize = 0;
    while i < cs.len()
        invariant
            i <= cs@.len(),
            out@ == old(out)@ + cs@.take(i as int),
        decreases cs.len() - i,
    {
        out.push(cs[i]);
        assert(old(out)@ + cs@.take(i as int + 1) =~= (old(out)@ + cs@.take(i as int)).push(cs@[i as int]));
        i += 1;
    }
    assert(cs@.take(i as int) =~= cs@);
}


/// The result of `s.parse::<usize>()`, as an option.
pub open spec fn parse_usize_spec(s: Seq<char>) -> Option<usize> {
    match unsigned_value(s) {
        Some(v) => if v <= usize::MAX { Some(v as usize) } else { None },
        None => None,
    }
}

/// `s.parse::<usize>().ok()`.
pub fn parse_usize(s: &[char]) -> (r: Option<usize>)
    ensures
        r == parse_usize_spec(s@),
{
    match parse_bounded(s, usize::MAX as u64) {
        Some(v) => Some(v as usize),
        None => None,
    }
}

/// The value `FromStr` reads from `s` for a signed type of unbounded width: an
/// optional sign followed by one or more ASCII digits.
pub open spec fn signed_value(s: Seq<char>) -> Option<int> {
    if s.len() > 0 && s[0] == '-' {
        let b = s.skip(1);
        if b.len() > 0 && forall|i: int| 0 <= i < b.len() ==> is_digit(#[trigger] b[i]) {
            Some(-(digits_value(b) as int))
        } else {
            None
        }
    } else {
        match unsigned_value(s) {
            Some(v) => Some(v as int),
            None => None,
        }
    }
}

/// The result of `s.parse::<isize>()`, as an option.
pub open spec fn parse_isize_spec(s: Seq<char>) -> Option<isize> {
    match signed_value(s) {
        Some(v) => if isize::MIN <= v <= isize::MAX { Some(v as isize) } else { None },
        None => None,
    }
}

/// `s.parse::<isize>().ok()`.
pub fn parse_isize(s: &[char]) -> (r: Option<isize>)
    ensures
        r == parse_isize_spec(s@),
{
    if s.len() > 0 && s[0] == '-' {
        let rest = slice_to_vec(s, 1, s.len());
        assert(rest@ =~= s@.skip(1));
        if rest.len() == 0 || rest[0] == '+' {
            assert(!is_digit('+'));
            return None;
        }
        assert(unsigned_body(rest@) == rest@);
        let bound: u64 = isize::MAX as u64 + 1;
        match parse_bounded(rest.as_slice(), bound) {
            Some(m) => {
                if m == bound {
                    Some(isize::MIN)
                } else {
                    Some(-(m as isize))
                }
            },
            None => None,
        }
    } else {
        match parse_bounded(s, isize::MAX as u64) {
            Some(v) => Some(v as isize),
            None => None,
        }
    }
}

/// The decimal numeral of `n`, with a leading '-' when negative (what `n.to_string()` gives).
pub open spec fn signed_decimal(n: int) -> Seq<char> {
    if n < 0 { seq!['-'] + decimal((-n) as nat) } else { decimal(n as nat) }
}

/// `n.to_string()` for an `isize`.
pub fn isize_to_string(n: isize) -> (r: String)
    ensures
        r@ == signed_decimal(n as int),
{
    let mut v: Vec<char> = Vec::new();
    if n < 0 {
        v.push('-');
        let m: u64 = if n == isize::MIN { isize::MAX as u64 + 1 } else { (-n) as u64 };
        push_decimal(&mut v, m);
        assert(v@ =~= seq!['-'] + decimal((-(n as int)) as nat));
    } else {
        push_decimal(&mut v, n as u64);
        assert(v@ =~= decimal(n as nat));
    }
    string_of(v.as_slice())
}

/// What `b.to_string()` gives for a boolean.
pub open spec fn bool_text(b: bool) -> Seq<char> {
    if b { "true"@ } else { "false"@ }
}

/// `b.to_string()`.
pub fn bool_to_string(b: bool) -> (r: String)
    ensures
        r@ == bool_text(b),
{
    if b { String::from_str("true") } else { String::from_str("false") }
}

/// The result of `s.parse::<bool>()`, as an option: only "true" and "false" are read.
pub open spec fn parse_bool_spec(s: Seq<char>) -> Option<bool> {
    if s == "true"@ { Some(true) } else if s == "false"@ { Some(false) } else { None }
}

/// `s.parse::<bool>().ok()`.
pub fn parse_bool(s: &[char]) -> (r: Option<bool>)
    ensures
        r == parse_bool_spec(s@),
{
    let t = chars_of("true");
    let f = chars_of("false");
    if s.len() == t.len() && starts_with(s, t.as_slice()) {
        assert(s@ =~= t@);
        Some(true)
    } else if s.len() == f.len() && starts_with(s, f.as_slice()) {
        assert(s@ =~= f@);
        Some(false)
    } else {
        proof {
            if s@ == t@ {
                assert(s@.subrange(0, t@.len() as int) =~= s@);
            }
            if s@ == f@ {
                assert(s@.subrange(0, f@.len() as int) =~= s@);
            }
        }
        None
    }
}

} // verus!
