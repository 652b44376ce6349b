//! The console report: the top URLs or IPs as a text table, for printing without
//! the terminal interface.
use vstd::prelude::*;
use crate::memory_db::pair_view;
use crate::text::{chars_of, decimal, push_chars, push_decimal, push_str, string_of};

verus! {

/// `s` followed by spaces up to `w` characters (unchanged when it is that long).
pub open spec fn padded(s: Seq<char>, w: nat) -> Seq<char> {
    if s.len() >= w { s } else { s + Seq::new((w - s.len()) as nat, |i: int| ' ') }
}

/// `n` dashes.
pub open spec fn dashes(n: nat) -> Seq<char> {
    Seq::new(n, |i: int| '-')
}

/// The lines of the table of the top entries `rows`: an empty line, a title with the
/// number asked for and the number of distinct entries, a header, a rule, then one
/// line per entry with its number of requests. Entries are padded to `w` characters,
/// counts to 10.
pub open spec fn top_table_lines(label: Seq<char>, plural: Seq<char>, top: nat, unique: nat,
    rows: Seq<(Seq<char>, usize)>, w: nat) -> Seq<Seq<char>>
{
    seq![
        Seq::empty(),
        "Top "@ + decimal(top) + " "@ + plural + " (total unique: "@ + decimal(unique) + "):"@,
        padded(label, w) + " | "@ + padded("Requests"@, 10),
        dashes(w) + "-+-"@ + dashes(10),
    ] + rows.map_values(|r: (Seq<char>, usize)| padded(r.0, w) + " | "@ + padded(decimal(r.1 as nat), 10))
}

fn push_padded(out: &mut Vec<char>, s: &[char], w: usize)
    ensures
        final(out)@ == old(out)@ + padded(s@, w as nat),
{
    push_chars(out, s);
    let mut k = s.len();
    let ghost base = old(out)@ + s@;
    while k < w
        invariant
            s@.len() <= k <= w || (k == s@.len() && k >= w),
            out@ == base + Seq::new((k - s@.len()) as nat, |i: int| ' '),
        decreases w - k,
    {
        out.push(' ');
        k += 1;
        assert(out@ =~= base + Seq::new((k - s@.len()) as nat, |i: int| ' '));
    }
    if s.len() >= w {
        assert(out@ =~= base);
    } else {
        assert(k == w);
    }
}

fn push_dashes(out: &mut Vec<char>, n: usize)
    ensures
        final(out)@ == old(out)@ + dashes(n as nat),
{
    let mut k: usize = 0;
    while k < n
        invariant
            k <= n,
            out@ == old(out)@ + dashes(k as nat),
        decreases n - k,
    {
        out.push('-');
        k += 1;
        assert(out@ =~= old(out)@ + dashes(k as nat));
    }
}

/// `s` padded with spaces to `w` characters.
pub fn pad(s: &str, w: usize) -> (r: String)
    ensures
        r@ == padded(s@, w as nat),
{
    let mut out: Vec<char> = Vec::new();
    push_padded(&mut out, chars_of(s).as_slice(), w);
    assert(out@ =~= padded(s@, w as nat));
    string_of(out.as_slice())
}

/// The lines that print the top entries `rows` (see `top_table_lines`): `label` names
/// one entry in the header, `plural` several in the title.
pub fn top_table(label: &str, plural: &str, top: usize, unique: usize, rows: &Vec<(String, usize)>, width: usize) -> (r: Vec<String>)
    ensures
        r@.map_values(|l: String| l@) == top_table_lines(label@, plural@, top as nat, unique as nat, pair_view(rows@), width as nat),
{
    let ghost want = top_table_lines(label@, plural@, top as nat, unique as nat, pair_view(rows@), width as nat);
    let mut r: Vec<String> = Vec::new();
    r.push(String::from_str(""));
    let mut title: Vec<char> = Vec::new();
    push_str(&mut title, "Top ");
    push_decimal(&mut title, top as u64);
    push_str(&mut title, " ");
    push_str(&mut title, plural);
    push_str(&mut title, " (total unique: ");
    push_decimal(&mut title, unique as u64);
    push_str(&mut title, "):");
    r.push(string_of(title.as_slice()));
    let mut header: Vec<char> = Vec::new();
    push_padded(&mut header, chars_of(label).as_slice(), width);
    push_str(&mut header, " | ");
    push_padded(&mut header, chars_of("Requests").as_slice(), 10);
    r.push(string_of(header.as_slice()));
    let mut rule: Vec<char> = Vec::new();
    push_dashes(&mut rule, width);
    push_str(&mut rule, "-+-");
    push_dashes(&mut rule, 10);
    r.push(string_of(rule.as_slice()));
    proof {
        reveal_strlit("");
        assert(r@[0]@ =~= want[0]);
        assert(title@ =~= want[1]);
        assert(header@ =~= want[2]);
        assert(rule@ =~= want[3]);
        assert(r@.map_values(|l: String| l@) =~= want.take(4));
    }
    let mut i: usize = 0;
    while i < rows.len()
        invariant
            i <= rows@.len(),
            want == top_table_lines(label@, plural@, top as nat, unique as nat, pair_view(rows@), width as nat),
            r@.map_values(|l: String| l@) == want.take(4 + i),
        decreases rows.len() - i,
    {
        let mut line: Vec<char> = Vec::new();
        push_padded(&mut line, chars_of(rows[i].0.as_str()).as_slice(), width);
        push_str(&mut line, " | ");
        let mut num: Vec<char> = Vec::new();
        push_decimal(&mut num, rows[i].1 as u64);
        push_padded(&mut line, num.as_slice(), 10);
        let ghost prev = r@;
        r.push(string_of(line.as_slice()));
        assert(r@.map_values(|l: String| l@) =~= prev.map_values(|l: String| l@).push(line@));
        assert(want[4 + i as int] == line@);
        assert(r@.map_values(|l: String| l@) =~= want.take(4 + i + 1));
        i += 1;
    }
    assert(want.take(4 + i) =~= want);
    r
}

} // verus!
