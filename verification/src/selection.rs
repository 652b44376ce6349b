//! Row selection in the lists and tables of the analysis tabs, and what a tab asks
//! its caller to do after a key press.
use vstd::prelude::*;
use crate::text::{push_chars, push_str, string_of};

verus! {

/// The selection after moving up one row: one row higher, but never above the first;
/// no selection stays none.
pub open spec fn row_up(sel: Option<usize>) -> Option<usize> {
    match sel {
        Some(s) => if s > 0 { Some((s - 1) as usize) } else { sel },
        None => None,
    }
}

/// The selection after moving down one row among `len` rows: one row lower, but
/// never past the last; no selection stays none.
pub open spec fn row_down(sel: Option<usize>, len: nat) -> Option<usize> {
    match sel {
        Some(s) => if s + 1 < len { Some((s + 1) as usize) } else { sel },
        None => None,
    }
}

/// A list's own step to the next item: the first item when none is selected, else
/// one further (saturating); the list is clamped to its length when it is drawn.
pub open spec fn list_next(sel: Option<usize>) -> Option<usize> {
    Some(match sel {
        Some(i) => if i == usize::MAX { i } else { (i + 1) as usize },
        None => 0,
    })
}

/// A list's own step to the previous item: the last possible index when none is
/// selected, else one back (saturating at the first).
pub open spec fn list_previous(sel: Option<usize>) -> Option<usize> {
    Some(match sel {
        Some(i) => if i == 0 { 0 } else { (i - 1) as usize },
        None => usize::MAX,
    })
}

/// A selection on one of `len` rows, or none.
pub open spec fn on_rows(sel: Option<usize>, len: nat) -> bool {
    match sel {
        Some(s) => s < len,
        None => true,
    }
}

/// Moving up or down keeps a selection on the rows; a step down that moved is
/// undone by a step up.
pub proof fn law_row_moves_stay_on_rows(sel: Option<usize>, len: nat)
    requires
        on_rows(sel, len),
        len <= usize::MAX,
    ensures
        on_rows(row_up(sel), len),
        on_rows(row_down(sel, len), len),
        row_down(sel, len) != sel ==> row_up(row_down(sel, len)) == sel,
        (sel matches Some(s) && s > 0) ==> row_down(row_up(sel), len) == sel,
{
}

/// Moves a table selection up one row.
pub fn row_up_of(sel: Option<usize>) -> (r: Option<usize>)
    ensures
        r == row_up(sel),
{
    match sel {
        Some(s) => if s > 0 { Some(s - 1) } else { sel },
        None => None,
    }
}

/// Moves a table selection down one row among `len` rows.
pub fn row_down_of(sel: Option<usize>, len: usize) -> (r: Option<usize>)
    ensures
        r == row_down(sel, len as nat),
{
    match sel {
        Some(s) => if s < len.saturating_sub(1) { Some(s + 1) } else { sel },
        None => None,
    }
}

/// Moves a list selection to the next item.
pub fn list_next_of(sel: Option<usize>) -> (r: Option<usize>)
    ensures
        r == list_next(sel),
{
    match sel {
        Some(i) => Some(i.saturating_add(1)),
        None => Some(0),
    }
}

/// Moves a list selection to the previous item.
pub fn list_previous_of(sel: Option<usize>) -> (r: Option<usize>)
    ensures
        r == list_previous(sel),
{
    match sel {
        Some(i) => Some(i.saturating_sub(1)),
        None => Some(usize::MAX),
    }
}

/// What a tab made of a key press.
#[derive(Clone, Copy, Debug, PartialEq, Eq, Structural)]
pub enum TabInput {
    /// The key is not one the tab uses.
    Ignored,
    /// The tab used the key.
    Handled,
    /// The tab used the key and asks its caller to copy the selection to the clipboard.
    Copy,
}

/// Text to put on the clipboard, and the message to show once it is there.
pub struct CopyRequest {
    pub text: String,
    pub message: String,
}

/// `s` cut to its first `max` characters and marked with an ellipsis, when it is longer.
pub open spec fn shortened(s: Seq<char>, max: nat) -> Seq<char> {
    if s.len() > max { s.take(max as int) + "..."@ } else { s }
}

/// `s` for display in at most about `max` characters (see `shortened`).
pub fn shorten(s: &str, max: usize) -> (r: String)
    ensures
        r@ == shortened(s@, max as nat),
{
    let cs = crate::text::chars_of(s);
    if cs.len() > max {
        let mut out: Vec<char> = Vec::new();
        push_chars(&mut out, crate::text::slice_to_vec(cs.as_slice(), 0, max).as_slice());
        push_str(&mut out, "...");
        string_of(out.as_slice())
    } else {
        string_of(cs.as_slice())
    }
}

} // verus!
