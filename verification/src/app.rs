//! The analysis screen's choices: which tabs it shows, and what each key does.
use vstd::prelude::*;
use crate::keys::{KeyCode, KeyInput, is_interrupt};
use crate::tab_manager::{TabManager, next_index, prev_index};

verus! {

/// Which optional tabs the analysis screen shows.
pub struct AppConfig {
    pub enable_security: bool,
    pub enable_performance: bool,
    pub enable_errors: bool,
    pub enable_bots: bool,
    pub enable_sparkline: bool,
    pub enable_heatmap: bool,
}

/// The tab names for `c`: Overview, Requests and Detailed, then each enabled one of
/// Sparkline, Heatmap, Security, Performance, Errors and Bots, in that order.
pub open spec fn tab_list(c: AppConfig) -> Seq<Seq<char>> {
    seq!["Overview"@, "Requests"@, "Detailed"@]
        + (if c.enable_sparkline { seq!["Sparkline"@] } else { Seq::empty() })
        + (if c.enable_heatmap { seq!["Heatmap"@] } else { Seq::empty() })
        + (if c.enable_security { seq!["Security"@] } else { Seq::empty() })
        + (if c.enable_performance { seq!["Performance"@] } else { Seq::empty() })
        + (if c.enable_errors { seq!["Errors"@] } else { Seq::empty() })
        + (if c.enable_bots { seq!["Bots"@] } else { Seq::empty() })
}

/// The names of strings.
pub open spec fn names_of(v: Seq<String>) -> Seq<Seq<char>> {
    v.map_values(|s: String| s@)
}

fn push_if(v: &mut Vec<String>, on: bool, name: &str)
    ensures
        names_of(final(v)@) == names_of(old(v)@) + (if on { seq![name@] } else { Seq::empty() }),
{
    if on {
        let ghost prev = v@;
        v.push(String::from_str(name));
        assert(names_of(v@) =~= names_of(prev) + seq![name@]);
    } else {
        assert(names_of(v@) =~= names_of(old(v)@) + Seq::<Seq<char>>::empty());
    }
}

/// The names of the tabs shown for `config`, in order.
pub fn tab_names_for(config: &AppConfig) -> (r: Vec<String>)
    ensures
        names_of(r@) == tab_list(*config),
{
    let mut v: Vec<String> = Vec::new();
    v.push(String::from_str("Overview"));
    v.push(String::from_str("Requests"));
    v.push(String::from_str("Detailed"));
    assert(names_of(v@) =~= seq!["Overview"@, "Requests"@, "Detailed"@]);
    push_if(&mut v, config.enable_sparkline, "Sparkline");
    push_if(&mut v, config.enable_heatmap, "Heatmap");
    push_if(&mut v, config.enable_security, "Security");
    push_if(&mut v, config.enable_performance, "Performance");
    push_if(&mut v, config.enable_errors, "Errors");
    push_if(&mut v, config.enable_bots, "Bots");
    v
}

/// What the caller does after a key press: nothing more, copy the selection of tab
/// `i` to the clipboard, or hand the key to tab `i`.
pub enum AppEffect {
    Nothing,
    CopyFromTab(usize),
    ForwardToTab(usize),
}

/// The tabs whose selection Enter copies.
pub open spec fn copies_on_enter(name: Seq<char>) -> bool {
    name == "Overview"@ || name == "Requests"@ || name == "Detailed"@ || name == "Security"@
}

/// Whether the analysis screen should close, and its tabs.
pub struct AppState {
    should_quit: bool,
    tab_manager: TabManager,
}

impl AppState {
    /// Whether the screen should close.
    pub closed spec fn quitting(&self) -> bool {
        self.should_quit
    }

    /// The tabs.
    pub closed spec fn tabs(&self) -> TabManager {
        self.tab_manager
    }

    /// The screen for `config`, on its first tab.
    pub fn new(config: &AppConfig) -> (r: Self)
        ensures
            !r.quitting(),
            names_of(r.tabs().names()) == tab_list(*config),
            r.tabs().current() == 0,
    {
        AppState { should_quit: false, tab_manager: TabManager::new(tab_names_for(config)) }
    }

    /// Handles a key press: q or Control-C closes the screen; Tab, t move to the next
    /// tab, Shift-Tab, BackTab and Shift-T to the previous one; Enter copies the
    /// selection of the Overview, Requests, Detailed and Security tabs; other keys
    /// go to the current tab.
    pub fn handle_input(&mut self, key: KeyInput) -> (r: AppEffect)
        ensures
            final(self).tabs().names() == old(self).tabs().names(),
            ({
                let cur = old(self).tabs().current();
                let n = old(self).tabs().names().len();
                let same = final(self).quitting() == old(self).quitting();
                if key.code == KeyCode::Char('q') || is_interrupt(key) {
                    final(self).quitting() && final(self).tabs().current() == cur && r is Nothing
                } else if key.code == KeyCode::Enter {
                    same && final(self).tabs().current() == cur
                        && if cur < n && copies_on_enter(old(self).tabs().names()[cur as int]@) {
                            r matches AppEffect::CopyFromTab(i) && i == cur
                        } else {
                            r is Nothing
                        }
                } else if key.code == KeyCode::Tab {
                    same && r is Nothing
                        && final(self).tabs().current() == if key.shift { prev_index(cur, n) } else { next_index(cur, n) }
                } else if key.code == KeyCode::BackTab || (key.code == KeyCode::Char('T') && key.shift) {
                    same && r is Nothing && final(self).tabs().current() == prev_index(cur, n)
                } else if key.code == KeyCode::Char('t') {
                    same && r is Nothing && final(self).tabs().current() == next_index(cur, n)
                } else {
                    same && final(self).tabs().current() == cur && (r matches AppEffect::ForwardToTab(i) && i == cur)
                }
            }),
    {
        if key.code == KeyCode::Char('q') || (key.code == KeyCode::Char('c') && key.ctrl) {
            self.should_quit = true;
            AppEffect::Nothing
        } else if key.code == KeyCode::Enter {
            let idx = self.tab_manager.current_tab();
            match self.tab_manager.current_tab_name() {
                Some(name) => {
                    let cs = crate::text::chars_of(name);
                    if is_copy_tab(cs.as_slice()) {
                        AppEffect::CopyFromTab(idx)
                    } else {
                        AppEffect::Nothing
                    }
                },
                None => AppEffect::Nothing,
            }
        } else if key.code == KeyCode::Tab {
            if key.shift {
                self.tab_manager.previous_tab();
            } else {
                self.tab_manager.next_tab();
            }
            AppEffect::Nothing
        } else if key.code == KeyCode::BackTab || (key.code == KeyCode::Char('T') && key.shift) {
            self.tab_manager.previous_tab();
            AppEffect::Nothing
        } else if key.code == KeyCode::Char('t') {
            self.tab_manager.next_tab();
            AppEffect::Nothing
        } else {
            AppEffect::ForwardToTab(self.tab_manager.current_tab())
        }
    }

    /// Whether the screen should close.
    pub fn should_quit(&self) -> (r: bool)
        ensures
            r == self.quitting(),
    {
        self.should_quit
    }

    /// The tabs.
    pub fn tab_manager(&self) -> (r: &TabManager)
        ensures
            *r == self.tabs(),
    {
        &self.tab_manager
    }
}

fn is_name(s: &[char], name: &str) -> (r: bool)
    ensures
        r == (s@ == name@),
{
    let n = crate::text::chars_of(name);
    if s.len() != n.len() {
        return false;
    }
    let r = crate::text::starts_with(s, n.as_slice());
    proof {
        if r {
            assert(s@ =~= s@.subrange(0, n@.len() as int));
        } else if s@ == n@ {
            assert(s@.subrange(0, n@.len() as int) =~= s@);
        }
    }
    r
}

fn is_copy_tab(s: &[char]) -> (r: bool)
    ensures
        r == copies_on_enter(s@),
{
    is_name(s, "Overview") || is_name(s, "Requests") || is_name(s, "Detailed") || is_name(s, "Security")
}

} // verus!
