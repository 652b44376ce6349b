//! The Bots, Errors and Performance tabs: a summary above one table, whose selected
//! row Up and Down move.
use vstd::prelude::*;
use crate::keys::{KeyCode, KeyInput};
use crate::selection::{TabInput, row_down, row_down_of, row_up, row_up_of};

verus! {

/// The selection after a key press in a table of `rows` rows: Up and Down move it,
/// other keys are not used.
pub open spec fn table_step(sel: Option<usize>, k: KeyInput, rows: nat) -> (Option<usize>, TabInput) {
    match k.code {
        KeyCode::Up => (row_up(sel), TabInput::Handled),
        KeyCode::Down => (row_down(sel, rows), TabInput::Handled),
        _ => (sel, TabInput::Ignored),
    }
}

fn table_input(sel: &mut Option<usize>, key: KeyInput, rows: usize) -> (r: TabInput)
    ensures
        (*final(sel), r) == table_step(*old(sel), key, rows as nat),
{
    match key.code {
        KeyCode::Up => {
            *sel = row_up_of(*sel);
            TabInput::Handled
        },
        KeyCode::Down => {
            *sel = row_down_of(*sel, rows);
            TabInput::Handled
        },
        _ => TabInput::Ignored,
    }
}

/// The Bots tab: the selected row of the top user agents.
#[derive(Clone, Copy)]
pub struct BotsTab {
    pub selected: Option<usize>,
}

impl BotsTab {
    /// The tab with the first row selected.
    pub fn new() -> (r: Self)
        ensures
            r.selected == Some(0usize),
    {
        BotsTab { selected: Some(0) }
    }

    /// Handles Up and Down among `rows` shown user agents.
    pub fn handle_input(&mut self, key: KeyInput, rows: usize) -> (r: TabInput)
        ensures
            (final(self).selected, r) == table_step(old(self).selected, key, rows as nat),
    {
        table_input(&mut self.selected, key, rows)
    }
}

/// The Errors tab: the selected row of the top status codes.
#[derive(Clone, Copy)]
pub struct ErrorsTab {
    pub selected: Option<usize>,
}

impl ErrorsTab {
    /// The tab with the first row selected.
    pub fn new() -> (r: Self)
        ensures
            r.selected == Some(0usize),
    {
        ErrorsTab { selected: Some(0) }
    }

    /// Handles Up and Down among `rows` shown status codes.
    pub fn handle_input(&mut self, key: KeyInput, rows: usize) -> (r: TabInput)
        ensures
            (final(self).selected, r) == table_step(old(self).selected, key, rows as nat),
    {
        table_input(&mut self.selected, key, rows)
    }
}

/// The Performance tab: the selected row of the slowest requests.
#[derive(Clone, Copy)]
pub struct PerformanceTab {
    pub selected: Option<usize>,
}

/// The number of rows of the slow-request table: at most ten.
pub open spec fn slow_rows(slow_requests: nat) -> nat {
    if slow_requests < 10 { slow_requests } else { 10 }
}

impl PerformanceTab {
    /// The tab with the first row selected.
    pub fn new() -> (r: Self)
        ensures
            r.selected == Some(0usize),
    {
        PerformanceTab { selected: Some(0) }
    }

    /// Handles Up and Down in the table of the slowest requests, of which there are
    /// `slow_requests` (the table shows at most ten).
    pub fn handle_input(&mut self, key: KeyInput, slow_requests: usize) -> (r: TabInput)
        ensures
            (final(self).selected, r) == table_step(old(self).selected, key, slow_rows(slow_requests as nat)),
    {
        let rows = if slow_requests < 10 { slow_requests } else { 10 };
        table_input(&mut self.selected, key, rows)
    }
}

impl Default for BotsTab {
    /// The tab as `BotsTab::new` makes it.
    fn default() -> (r: Self)
        ensures
            r.selected == Some(0usize),
    {
        BotsTab::new()
    }
}

impl Default for ErrorsTab {
    /// The tab as `ErrorsTab::new` makes it.
    fn default() -> (r: Self)
        ensures
            r.selected == Some(0usize),
    {
        ErrorsTab::new()
    }
}

impl Default for PerformanceTab {
    /// The tab as `PerformanceTab::new` makes it.
    fn default() -> (r: Self)
        ensures
            r.selected == Some(0usize),
    {
        PerformanceTab::new()
    }
}

} // verus!
