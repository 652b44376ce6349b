//! The Overview tab: the top IPs beside the top URLs, one of the two tables active.
use vstd::prelude::*;
use crate::keys::{KeyCode, KeyInput};
use crate::memory_db::{LogRecord, pair_view};
use crate::selection::{CopyRequest, TabInput, row_down, row_down_of, row_up, row_up_of};
use crate::text::{chars_of, push_chars, push_str, slice_to_vec, string_of};

verus! {

/// The Overview tab's state: the selected row of each table and the active table
/// (0 for the IPs on the left, 1 for the URLs on the right).
pub struct OverviewTab {
    pub ip_selected: Option<usize>,
    pub url_selected: Option<usize>,
    pub overview_panel: usize,
    pub top_n: usize,
}

/// The message shown once an IP or URL is on the clipboard.
pub open spec fn copied_message(kind: Seq<char>, text: Seq<char>) -> Seq<char> {
    kind + " '"@ + text + "' copied to clipboard"@
}

/// The state after a key press, given the numbers of rows in the two tables.
pub open spec fn overview_step(t: OverviewTab, k: KeyInput, ips: nat, urls: nat) -> (OverviewTab, TabInput) {
    match k.code {
        KeyCode::Left => (OverviewTab { overview_panel: 0, ip_selected: Some(0), url_selected: None, ..t }, TabInput::Handled),
        KeyCode::Right => (OverviewTab { overview_panel: 1, url_selected: Some(0), ip_selected: None, ..t }, TabInput::Handled),
        KeyCode::Up => (
            if t.overview_panel == 0 {
                OverviewTab { ip_selected: row_up(t.ip_selected), ..t }
            } else if t.overview_panel == 1 {
                OverviewTab { url_selected: row_up(t.url_selected), ..t }
            } else {
                t
            },
            TabInput::Handled,
        ),
        KeyCode::Down => (
            if t.overview_panel == 0 {
                OverviewTab { ip_selected: row_down(t.ip_selected, ips), ..t }
            } else if t.overview_panel == 1 {
                OverviewTab { url_selected: row_down(t.url_selected, urls), ..t }
            } else {
                t
            },
            TabInput::Handled,
        ),
        KeyCode::Char(c) => if c == 'c' {
            (t, if k.ctrl { TabInput::Copy } else { TabInput::Handled })
        } else {
            (t, TabInput::Ignored)
        },
        _ => (t, TabInput::Ignored),
    }
}

/// `url` fitted to `max` characters: unchanged when it fits, else its first `max - 3`
/// characters and an ellipsis.
pub open spec fn truncated_url(url: Seq<char>, max: nat) -> Seq<char> {
    if url.len() <= max { url } else { url.take(max - 3) + "..."@ }
}

/// The latest timestamp among `recs`, if there is any record.
pub open spec fn latest(recs: Seq<LogRecord>) -> Option<i64>
    decreases recs.len(),
{
    if recs.len() == 0 {
        None
    } else {
        match latest(recs.drop_last()) {
            Some(t) => if recs.last().timestamp > t { Some(recs.last().timestamp) } else { Some(t) },
            None => Some(recs.last().timestamp),
        }
    }
}

/// The time of the latest of `recs`, shown as the last update of an IP or URL.
pub fn latest_timestamp(recs: &Vec<LogRecord>) -> (r: Option<i64>)
    ensures
        r == latest(recs@),
        r matches Some(t) ==> (forall|i: int| 0 <= i < recs@.len() ==> recs@[i].timestamp <= t),
        r matches Some(t) ==> (exists|i: int| 0 <= i < recs@.len() && recs@[i].timestamp == t),
{
    let mut best: Option<i64> = None;
    let mut i: usize = 0;
    while i < recs.len()
        invariant
            i <= recs@.len(),
            best == latest(recs@.take(i as int)),
            best matches Some(t) ==> (forall|j: int| 0 <= j < i ==> recs@[j].timestamp <= t),
            best matches Some(t) ==> (exists|j: int| 0 <= j < i && recs@[j].timestamp == t),
            best is None ==> i == 0,
        decreases recs.len() - i,
    {
        assert(recs@.take(i as int + 1).drop_last() =~= recs@.take(i as int));
        let ts = recs[i].timestamp;
        best = match best {
            Some(t) => if ts > t { Some(ts) } else { Some(t) },
            None => Some(ts),
        };
        i += 1;
    }
    assert(recs@.take(i as int) =~= recs@);
    best
}

/// `url` fitted to `max_length` characters for the URL table.
pub fn truncate_url(url: &str, max_length: usize) -> (r: String)
    requires
        max_length >= 3,
    ensures
        r@ == truncated_url(url@, max_length as nat),
{
    let cs = chars_of(url);
    if cs.len() <= max_length {
        string_of(cs.as_slice())
    } else {
        let mut out = slice_to_vec(cs.as_slice(), 0, max_length - 3);
        push_str(&mut out, "...");
        string_of(out.as_slice())
    }
}

fn copy_of(kind: &str, text: &String) -> (r: CopyRequest)
    ensures
        r.text@ == text@,
        r.message@ == copied_message(kind@, text@),
{
    let cs = chars_of(text.as_str());
    let mut m: Vec<char> = Vec::new();
    push_str(&mut m, kind);
    push_str(&mut m, " '");
    push_chars(&mut m, cs.as_slice());
    push_str(&mut m, "' copied to clipboard");
    CopyRequest { text: string_of(cs.as_slice()), message: string_of(m.as_slice()) }
}

impl OverviewTab {
    /// The tab with the first IP selected and the IP table active, showing ten rows.
    pub fn new() -> (r: Self)
        ensures
            r == (OverviewTab { ip_selected: Some(0), url_selected: None, overview_panel: 0, top_n: 10 }),
    {
        OverviewTab { ip_selected: Some(0), url_selected: None, overview_panel: 0, top_n: 10 }
    }

    /// Handles a key: Left and Right activate the IP or URL table on its first row,
    /// Up and Down move within the active table, Control-C asks for a copy.
    /// `ip_rows` and `url_rows` are the numbers of rows the two tables show.
    pub fn handle_input(&mut self, key: KeyInput, ip_rows: usize, url_rows: usize) -> (r: TabInput)
        ensures
            (*final(self), r) == overview_step(*old(self), key, ip_rows as nat, url_rows as nat),
    {
        match key.code {
            KeyCode::Left => {
                self.overview_panel = 0;
                self.ip_selected = Some(0);
                self.url_selected = None;
                TabInput::Handled
            },
            KeyCode::Right => {
                self.overview_panel = 1;
                self.url_selected = Some(0);
                self.ip_selected = None;
                TabInput::Handled
            },
            KeyCode::Up => {
                if self.overview_panel == 0 {
                    self.ip_selected = row_up_of(self.ip_selected);
                } else if self.overview_panel == 1 {
                    self.url_selected = row_up_of(self.url_selected);
                }
                TabInput::Handled
            },
            KeyCode::Down => {
                if self.overview_panel == 0 {
                    self.ip_selected = row_down_of(self.ip_selected, ip_rows);
                } else if self.overview_panel == 1 {
                    self.url_selected = row_down_of(self.url_selected, url_rows);
                }
                TabInput::Handled
            },
            KeyCode::Char(c) => {
                if c == 'c' {
                    if key.ctrl { TabInput::Copy } else { TabInput::Handled }
                } else {
                    TabInput::Ignored
                }
            },
            _ => TabInput::Ignored,
        }
    }

    /// What to copy for the selection of the active table, among the shown `top_ips`
    /// and `top_urls`: the selected IP or URL, if the selection is a shown row.
    pub fn copy_selected_to_clipboard(&self, top_ips: &Vec<(String, usize)>, top_urls: &Vec<(String, usize)>) -> (r: Option<CopyRequest>)
        ensures
            ({
                let (rows, sel, kind) = if self.overview_panel == 0 {
                    (pair_view(top_ips@), self.ip_selected, "IP"@)
                } else {
                    (pair_view(top_urls@), self.url_selected, "URL"@)
                };
                if (self.overview_panel == 0 || self.overview_panel == 1) && sel is Some && sel->0 < rows.len() {
                    r matches Some(c) && c.text@ == rows[sel->0 as int].0
                        && c.message@ == copied_message(kind, rows[sel->0 as int].0)
                } else {
                    r is None
                }
            }),
    {
        if self.overview_panel == 0 {
            match self.ip_selected {
                Some(i) => if i < top_ips.len() { Some(copy_of("IP", &top_ips[i].0)) } else { None },
                None => None,
            }
        } else if self.overview_panel == 1 {
            match self.url_selected {
                Some(i) => if i < top_urls.len() { Some(copy_of("URL", &top_urls[i].0)) } else { None },
                None => None,
            }
        } else {
            None
        }
    }
}

impl Default for OverviewTab {
    /// The tab as `OverviewTab::new` makes it.
    fn default() -> (r: Self)
        ensures
            r == (OverviewTab { ip_selected: Some(0), url_selected: None, overview_panel: 0, top_n: 10 }),
    {
        OverviewTab::new()
    }
}

} // verus!
