//! The Requests tab: every stored log line, filtered by a search text and shown in
//! pages of thirty.
use vstd::prelude::*;
use crate::keys::{KeyCode, KeyInput};
use crate::memory_db::{LogRecord, MemoryDB};
use crate::selection::{CopyRequest, TabInput, row_down, row_down_of, row_up, row_up_of};
use crate::shared_maps::lists_keys;
use crate::text::{chars_of, contains, contains_sub, lowercase, string_of, to_lowercase};

verus! {

/// The number of requests on one page.
pub const PAGE_SIZE: usize = 30;

/// Whether `line` contains `query`, both taken in lower case.
pub open spec fn matches_query(line: Seq<char>, query: Seq<char>) -> bool {
    contains_sub(lowercase(line), lowercase(query))
}

/// The lines of `lines` that contain `query` (in lower case), in order.
pub open spec fn keep_matching(lines: Seq<Seq<char>>, query: Seq<char>) -> Seq<Seq<char>>
    decreases lines.len(),
{
    if lines.len() == 0 {
        Seq::empty()
    } else {
        let r = keep_matching(lines.drop_last(), query);
        if matches_query(lines.last(), query) { r.push(lines.last()) } else { r }
    }
}

/// The search results for `query`: every line when it is empty, else the matching lines.
pub open spec fn search(lines: Seq<Seq<char>>, query: Seq<char>) -> Seq<Seq<char>> {
    if query.len() == 0 { lines } else { keep_matching(lines, query) }
}

/// The texts of strings.
pub open spec fn texts(v: Seq<String>) -> Seq<Seq<char>> {
    v.map_values(|s: String| s@)
}

/// The number of pages for `n` results (one page when there is none).
pub open spec fn page_count(n: nat) -> nat {
    if n == 0 { 1 } else { ((n + 29) / 30) as nat }
}

/// The log lines of stored records.
pub open spec fn lines_of(recs: Seq<LogRecord>) -> Seq<Seq<char>> {
    recs.map_values(|r: LogRecord| r.log_line@)
}

/// The lines of `lines` that match the search text `input`.
pub fn search_results(lines: &Vec<String>, input: &[char]) -> (r: Vec<String>)
    ensures
        texts(r@) == search(texts(lines@), input@),
{
    let mut r: Vec<String> = Vec::new();
    if input.len() == 0 {
        let mut i: usize = 0;
        while i < lines.len()
            invariant
                i <= lines@.len(),
                texts(r@) == texts(lines@).take(i as int),
            decreases lines.len() - i,
        {
            let s = string_of(chars_of(lines[i].as_str()).as_slice());
            let ghost prev = r@;
            r.push(s);
            assert(texts(r@) =~= texts(prev).push(lines@[i as int]@));
            assert(texts(r@) =~= texts(lines@).take(i as int + 1));
            i += 1;
        }
        assert(texts(lines@).take(i as int) =~= texts(lines@));
        return r;
    }
    let q = string_of(input);
    let lq = to_lowercase(q.as_str());
    let lqc = chars_of(lq.as_str());
    let mut i: usize = 0;
    while i < lines.len()
        invariant
            i <= lines@.len(),
            input@.len() > 0,
            lqc@ == lowercase(input@),
            texts(r@) == keep_matching(texts(lines@).take(i as int), input@),
        decreases lines.len() - i,
    {
        let ghost before = texts(r@);
        let ll = to_lowercase(lines[i].as_str());
        let llc = chars_of(ll.as_str());
        assert(texts(lines@).take(i as int + 1).drop_last() =~= texts(lines@).take(i as int));
        if contains(llc.as_slice(), lqc.as_slice()) {
            r.push(string_of(chars_of(lines[i].as_str()).as_slice()));
            assert(texts(r@) =~= before.push(lines@[i as int]@));
        }
        i += 1;
    }
    assert(texts(lines@).take(i as int) =~= texts(lines@));
    r
}

/// Every search result contains the search text (both in lower case), and the
/// results are some of the lines, in their order: no more of them than there are lines,
/// each one a line that matches.
pub proof fn law_search_results_match(lines: Seq<Seq<char>>, query: Seq<char>)
    requires
        query.len() > 0,
    ensures
        search(lines, query).len() <= lines.len(),
        forall|i: int| 0 <= i < search(lines, query).len() ==> matches_query(#[trigger] search(lines, query)[i], query)
            && lines.contains(search(lines, query)[i]),
    decreases lines.len(),
{
    if lines.len() > 0 {
        law_search_results_match(lines.drop_last(), query);
        let r = keep_matching(lines.drop_last(), query);
        assert forall|i: int| 0 <= i < search(lines, query).len() implies matches_query(#[trigger] search(lines, query)[i], query)
            && lines.contains(search(lines, query)[i]) by {
            if i < r.len() {
                assert(r[i] == search(lines.drop_last(), query)[i]);
                let j = choose|j: int| 0 <= j < lines.drop_last().len() && lines.drop_last()[j] == r[i];
                assert(lines[j] == r[i]);
            } else {
                assert(lines[lines.len() - 1] == lines.last());
            }
        }
    }
}

/// The state of the Requests tab: the selected row, the search text, and the page.
pub struct RequestsTab {
    pub selected: Option<usize>,
    pub input: Vec<char>,
    pub current_page: usize,
    pub total_pages: usize,
}

/// The Requests tab's state as values.
pub struct RequestsModel {
    pub selected: Option<usize>,
    pub input: Seq<char>,
    pub current_page: usize,
    pub total_pages: usize,
}

impl View for RequestsTab {
    type V = RequestsModel;

    open spec fn view(&self) -> RequestsModel {
        RequestsModel {
            selected: self.selected,
            input: self.input@,
            current_page: self.current_page,
            total_pages: self.total_pages,
        }
    }
}

/// The state after a key press, given the number of search results.
pub open spec fn requests_step(t: RequestsModel, k: KeyInput, results: nat) -> (RequestsModel, TabInput) {
    match k.code {
        KeyCode::Char(c) => (RequestsModel { input: t.input.push(c), current_page: 0, selected: Some(0), ..t }, TabInput::Handled),
        KeyCode::Enter => (t, TabInput::Copy),
        KeyCode::Backspace => (RequestsModel {
            input: if t.input.len() > 0 { t.input.drop_last() } else { t.input },
            current_page: 0,
            selected: Some(0),
            ..t
        }, TabInput::Handled),
        KeyCode::Up => (RequestsModel { selected: row_up(t.selected), ..t }, TabInput::Handled),
        KeyCode::Down => {
            let start = t.current_page * 30;
            let end = if start + 30 < results { start + 30 } else { results as int };
            (RequestsModel { selected: row_down(t.selected, (end - start) as nat), ..t }, TabInput::Handled)
        },
        KeyCode::Left => (RequestsModel {
            current_page: if t.current_page > 0 { (t.current_page - 1) as usize } else { 0 },
            selected: Some(0),
            ..t
        }, TabInput::Handled),
        KeyCode::Right => (RequestsModel {
            current_page: if t.current_page == usize::MAX { t.current_page } else { (t.current_page + 1) as usize },
            selected: Some(0),
            ..t
        }, TabInput::Handled),
        _ => (t, TabInput::Ignored),
    }
}

impl RequestsTab {
    /// The tab with an empty search, on its first page, with the first row selected.
    pub fn new() -> (r: Self)
        ensures
            r.selected == Some(0usize),
            r.input@.len() == 0,
            r.current_page == 0,
            r.total_pages == 0,
    {
        RequestsTab { selected: Some(0), input: Vec::new(), current_page: 0, total_pages: 0 }
    }

    /// The stored log lines that match the search text, in the store's order.
    pub fn get_search_results(&self, db: &MemoryDB) -> (r: Vec<String>)
        ensures
            exists|ks: Seq<u64>| lists_keys(ks, db.table())
                && texts(r@) == search(lines_of(ks.map_values(|id: u64| db.table()[id])), self.input@),
    {
        let records = db.get_all_records();
        let mut lines: Vec<String> = Vec::new();
        let mut i: usize = 0;
        while i < records.len()
            invariant
                i <= records@.len(),
                texts(lines@) == lines_of(records@).take(i as int),
            decreases records.len() - i,
        {
            let ghost prev = lines@;
            lines.push(string_of(chars_of(records[i].log_line.as_str()).as_slice()));
            assert(texts(lines@) =~= texts(prev).push(records@[i as int].log_line@));
            assert(texts(lines@) =~= lines_of(records@).take(i as int + 1));
            i += 1;
        }
        assert(lines_of(records@).take(i as int) =~= lines_of(records@));
        search_results(&lines, self.input.as_slice())
    }

    /// Fits the page to `total_items` results: records the number of pages, moves a
    /// page past the last back to the last, and returns the range of results it shows.
    pub fn fit_page(&mut self, total_items: usize) -> (r: (usize, usize))
        requires
            total_items + 29 <= usize::MAX,
        ensures
            final(self).total_pages == page_count(total_items as nat),
            final(self).current_page == (if old(self).current_page >= page_count(total_items as nat) {
                (page_count(total_items as nat) - 1) as usize
            } else {
                old(self).current_page
            }),
            final(self).selected == old(self).selected,
            final(self).input == old(self).input,
            r.0 == final(self).current_page * 30,
            r.1 == (if r.0 + 30 < total_items { r.0 + 30 } else { total_items as int }),
            r.0 <= r.1 <= total_items,
    {
        self.total_pages = if total_items == 0 { 1 } else { (total_items + (PAGE_SIZE - 1)) / PAGE_SIZE };
        if self.current_page >= self.total_pages {
            self.current_page = self.total_pages - 1;
        }
        proof {
            if total_items > 0 {
                assert((self.total_pages - 1) * 30 < total_items) by (nonlinear_arith)
                    requires
                        self.total_pages == (total_items + 29) / 30,
                        total_items > 0;
            }
            assert(self.current_page * 30 <= (self.total_pages - 1) * 30) by (nonlinear_arith)
                requires
                    self.current_page <= self.total_pages - 1;
        }
        let start = self.current_page * PAGE_SIZE;
        let end = if start + PAGE_SIZE < total_items { start + PAGE_SIZE } else { total_items };
        (start, end)
    }

    /// Handles a key: a character extends the search, Backspace shortens it (both
    /// return to the first row of the first page), Enter asks for a copy, Up and Down
    /// move within the page, Left and Right turn the page. `results` is the number
    /// of search results; Down needs the page to start within them (as `fit_page` leaves it).
    pub fn handle_input(&mut self, key: KeyInput, results: usize) -> (r: TabInput)
        requires
            key.code == KeyCode::Down ==> old(self).current_page * 30 <= results,
        ensures
            (final(self)@, r) == requests_step(old(self)@, key, results as nat),
    {
        match key.code {
            KeyCode::Char(c) => {
                self.input.push(c);
                self.current_page = 0;
                self.selected = Some(0);
                TabInput::Handled
            },
            KeyCode::Enter => TabInput::Copy,
            KeyCode::Backspace => {
                self.input.pop();
                self.current_page = 0;
                self.selected = Some(0);
                TabInput::Handled
            },
            KeyCode::Up => {
                self.selected = row_up_of(self.selected);
                TabInput::Handled
            },
            KeyCode::Down => {
                let start = self.current_page * PAGE_SIZE;
                let end = if results - start > PAGE_SIZE { start + PAGE_SIZE } else { results };
                self.selected = row_down_of(self.selected, end - start);
                TabInput::Handled
            },
            KeyCode::Left => {
                self.current_page = self.current_page.saturating_sub(1);
                self.selected = Some(0);
                TabInput::Handled
            },
            KeyCode::Right => {
                self.current_page = self.current_page.saturating_add(1);
                self.selected = Some(0);
                TabInput::Handled
            },
            _ => TabInput::Ignored,
        }
    }

    /// What to copy: the search result at the selected index, if there is one.
    pub fn copy_selected_to_clipboard(&self, results: &Vec<String>) -> (r: Option<CopyRequest>)
        ensures
            (self.selected is Some && self.selected->0 < results@.len()) ==> (r matches Some(c)
                && c.text@ == results@[self.selected->0 as int]@
                && c.message@ == "Request copied to clipboard"@),
            !(self.selected is Some && self.selected->0 < results@.len()) ==> r is None,
    {
        match self.selected {
            Some(i) => {
                if i < results.len() {
                    let text = string_of(chars_of(results[i].as_str()).as_slice());
                    Some(CopyRequest { text, message: String::from_str("Request copied to clipboard") })
                } else {
                    None
                }
            },
            None => None,
        }
    }
}

impl Default for RequestsTab {
    /// The tab as `RequestsTab::new` makes it.
    fn default() -> (r: Self)
        ensures
            r.selected == Some(0usize),
            r.input@.len() == 0,
            r.current_page == 0,
            r.total_pages == 0,
    {
        RequestsTab::new()
    }
}

} // verus!
