//! The Detailed tab: the top IPs, and the stored requests of the selected one.
use vstd::prelude::*;
use crate::keys::{KeyCode, KeyInput};
use crate::memory_db::{LogRecord, MemoryDB, found, pair_view};
use crate::selection::{CopyRequest, TabInput, row_down, row_down_of, row_up, row_up_of, shorten, shortened};
use crate::text::{chars_of, push_chars, push_str, string_of};

verus! {

/// The Detailed tab's state: the selected IP row, and the selected request of that
/// IP when the request list is active.
#[derive(Clone, Copy)]
pub struct DetailedTab {
    pub ip_selected: Option<usize>,
    pub request_selected: Option<usize>,
    pub top_n: usize,
}

/// The stored requests of the IP at the selected row of `ips`, if the selection is a row.
pub open spec fn requests_of_selected(t: DetailedTab, ips: Seq<(Seq<char>, usize)>, db: MemoryDB) -> Option<Seq<LogRecord>> {
    match t.ip_selected {
        Some(i) => if i < ips.len() { Some(found(db.ips(), db.table(), ips[i as int].0)) } else { None },
        None => None,
    }
}

/// The state after a key press, given the number of IP rows and the number of
/// requests of the selected IP (if it is a row).
pub open spec fn detailed_step(t: DetailedTab, k: KeyInput, ip_rows: nat, requests: Option<nat>) -> (DetailedTab, TabInput) {
    match k.code {
        KeyCode::Left => (DetailedTab {
            ip_selected: if t.ip_selected is None { Some(0) } else { t.ip_selected },
            request_selected: None,
            ..t
        }, TabInput::Handled),
        KeyCode::Right => (
            if ip_rows > 0 {
                DetailedTab {
                    ip_selected: if t.ip_selected is None { Some(0) } else { t.ip_selected },
                    request_selected: Some(0),
                    ..t
                }
            } else {
                t
            },
            TabInput::Handled,
        ),
        KeyCode::Up => (
            if t.request_selected is Some {
                DetailedTab { request_selected: row_up(t.request_selected), ..t }
            } else {
                DetailedTab { ip_selected: row_up(t.ip_selected), ..t }
            },
            TabInput::Handled,
        ),
        KeyCode::Down => (
            if t.request_selected is Some {
                match requests {
                    Some(n) => DetailedTab { request_selected: row_down(t.request_selected, n), ..t },
                    None => t,
                }
            } else {
                DetailedTab { ip_selected: row_down(t.ip_selected, ip_rows), ..t }
            },
            TabInput::Handled,
        ),
        KeyCode::Char(c) => if c == 'c' {
            (t, if k.ctrl { TabInput::Copy } else { TabInput::Handled })
        } else {
            (t, TabInput::Ignored)
        },
        _ => (t, TabInput::Ignored),
    }
}

/// The message shown once a request line is on the clipboard.
pub open spec fn copied_request_message(line: Seq<char>) -> Seq<char> {
    "Copied request to clipboard:\n"@ + shortened(line, 80)
}

impl DetailedTab {
    /// The tab with the first IP selected and the IP table active, showing ten IPs.
    pub fn new() -> (r: Self)
        ensures
            r == (DetailedTab { ip_selected: Some(0), request_selected: None, top_n: 10 }),
    {
        DetailedTab { ip_selected: Some(0), request_selected: None, top_n: 10 }
    }

    /// Handles a key: Left activates the IP table, Right the request list of the
    /// selected IP (on its first request, when there are IPs); Up and Down move in
    /// the active one; Control-C asks for a copy. `top_ips` are the IPs shown.
    pub fn handle_input(&mut self, key: KeyInput, top_ips: &Vec<(String, usize)>, db: &MemoryDB) -> (r: TabInput)
        requires
            db.wf(),
        ensures
            (*final(self), r) == detailed_step(*old(self), key, top_ips@.len(),
                match requests_of_selected(*old(self), pair_view(top_ips@), *db) {
                    Some(s) => Some(s.len()),
                    None => None,
                }),
    {
        match key.code {
            KeyCode::Left => {
                if self.ip_selected.is_none() {
                    self.ip_selected = Some(0);
                }
                self.request_selected = None;
                TabInput::Handled
            },
            KeyCode::Right => {
                if top_ips.len() > 0 {
                    if self.ip_selected.is_none() {
                        self.ip_selected = Some(0);
                    }
                    self.request_selected = Some(0);
                }
                TabInput::Handled
            },
            KeyCode::Up => {
                if self.request_selected.is_some() {
                    self.request_selected = row_up_of(self.request_selected);
                } else {
                    self.ip_selected = row_up_of(self.ip_selected);
                }
                TabInput::Handled
            },
            KeyCode::Down => {
                if self.request_selected.is_some() {
                    match self.ip_selected {
                        Some(i) => {
                            if i < top_ips.len() {
                                let records = db.find_by_ip(top_ips[i].0.as_str());
                                self.request_selected = row_down_of(self.request_selected, records.len());
                            }
                        },
                        None => {},
                    }
                } else {
                    self.ip_selected = row_down_of(self.ip_selected, top_ips.len());
                }
                TabInput::Handled
            },
            KeyCode::Char(c) => {
                if c == 'c' {
                    if key.ctrl { TabInput::Copy } else { TabInput::Handled }
                } else {
                    TabInput::Ignored
                }
            },
            _ => TabInput::Ignored,
        }
    }

    /// What to copy, in the order to try it: the selected IP, when its row is shown,
    /// then the selected request of that IP, when it exists.
    pub fn copy_selected_to_clipboard(&self, top_ips: &Vec<(String, usize)>, db: &MemoryDB) -> (r: Vec<CopyRequest>)
        requires
            db.wf(),
        ensures
            ({
                let ips = pair_view(top_ips@);
                match requests_of_selected(*self, ips, *db) {
                    Some(recs) => {
                        let ip = ips[self.ip_selected->0 as int].0;
                        &&& r@.len() >= 1
                        &&& r@[0].text@ == ip
                        &&& r@[0].message@ == "Copied IP to clipboard"@
                        &&& if self.request_selected is Some && self.request_selected->0 < recs.len() {
                            let line = recs[self.request_selected->0 as int].log_line@;
                            r@.len() == 2 && r@[1].text@ == line && r@[1].message@ == copied_request_message(line)
                        } else {
                            r@.len() == 1
                        }
                    },
                    None => r@.len() == 0,
                }
            }),
    {
        let mut r: Vec<CopyRequest> = Vec::new();
        match self.ip_selected {
            Some(i) => {
                if i < top_ips.len() {
                    let ip = string_of(chars_of(top_ips[i].0.as_str()).as_slice());
                    r.push(CopyRequest { text: ip, message: String::from_str("Copied IP to clipboard") });
                    let records = db.find_by_ip(top_ips[i].0.as_str());
                    match self.request_selected {
                        Some(j) => {
                            if j < records.len() {
                                let line = &records[j].log_line;
                                let mut m: Vec<char> = Vec::new();
                                push_str(&mut m, "Copied request to clipboard:\n");
                                let short = shorten(line.as_str(), 80);
                                push_chars(&mut m, chars_of(short.as_str()).as_slice());
                                let text = string_of(chars_of(line.as_str()).as_slice());
                                r.push(CopyRequest { text, message: string_of(m.as_slice()) });
                            }
                        },
                        None => {},
                    }
                }
            },
            None => {},
        }
        r
    }
}

impl Default for DetailedTab {
    /// The tab as `DetailedTab::new` makes it.
    fn default() -> (r: Self)
        ensures
            r == (DetailedTab { ip_selected: Some(0), request_selected: None, top_n: 10 }),
    {
        DetailedTab::new()
    }
}

} // verus!
