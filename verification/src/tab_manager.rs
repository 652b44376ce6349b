use vstd::prelude::*;

verus! {

/// Index of the tab that follows `i` among `n` tabs (cyclically).
pub open spec fn next_index(i: nat, n: nat) -> nat {
    if n == 0 { i } else { ((i + 1) % n) as nat }
}

/// Index of the tab that precedes `i` among `n` tabs (cyclically).
pub open spec fn prev_index(i: nat, n: nat) -> nat {
    if n == 0 { i } else if i == 0 { (n - 1) as nat } else { (i - 1) as nat }
}

/// Universal tab manager that handles tab navigation and state.
pub struct TabManager {
    tab_names: Vec<String>,
    current_tab: usize,
}

impl TabManager {
    /// The selected index always designates an existing tab, or is 0 when there is none.
    #[verifier::type_invariant]
    spec fn wf(self) -> bool {
        if self.tab_names@.len() == 0 {
            self.current_tab == 0
        } else {
            self.current_tab < self.tab_names@.len()
        }
    }

    /// The names of the tabs, in display order.
    pub closed spec fn names(&self) -> Seq<String> {
        self.tab_names@
    }

    /// The index of the selected tab.
    pub closed spec fn current(&self) -> nat {
        self.current_tab as nat
    }

    /// Create a new tab manager with the given tabs; the first tab is selected.
    pub fn new(tab_names: Vec<String>) -> (r: Self)
        ensures
            r.names() == tab_names@,
            r.current() == 0,
    {
        TabManager { tab_names, current_tab: 0 }
    }

    /// Get the current tab index.
    pub fn current_tab(&self) -> (r: usize)
        ensures
            r == self.current(),
            self.names().len() == 0 ==> r == 0,
            self.names().len() > 0 ==> r < self.names().len(),
    {
        proof { use_type_invariant(self); }
        self.current_tab
    }

    /// Get the current tab name (`None` when there are no tabs).
    pub fn current_tab_name(&self) -> (r: Option<&str>)
        ensures
            self.names().len() == 0 <==> r is None,
            r matches Some(s) ==> s@ == self.names()[self.current() as int]@,
    {
        proof { use_type_invariant(self); }
        if self.current_tab < self.tab_names.len() {
            Some(self.tab_names[self.current_tab].as_str())
        } else {
            None
        }
    }

    /// Get all tab names.
    pub fn tab_names(&self) -> (r: &[String])
        ensures
            r@ == self.names(),
    {
        self.tab_names.as_slice()
    }

    /// Switch to the next tab (wrapping around after the last one).
    pub fn next_tab(&mut self)
        ensures
            final(self).names() == old(self).names(),
            final(self).current() == next_index(old(self).current(), old(self).names().len()),
    {
        proof { use_type_invariant(&*self); }
        if self.tab_names.len() > 0 {
            self.current_tab = (self.current_tab + 1) % self.tab_names.len();
        }
    }

    /// Switch to the previous tab (wrapping around before the first one).
    pub fn previous_tab(&mut self)
        ensures
            final(self).names() == old(self).names(),
            final(self).current() == prev_index(old(self).current(), old(self).names().len()),
    {
        proof { use_type_invariant(&*self); }
        if self.tab_names.len() > 0 {
            self.current_tab = if self.current_tab == 0 {
                self.tab_names.len() - 1
            } else {
                self.current_tab - 1
            };
        }
    }
}

impl Default for TabManager {
    fn default() -> (r: Self)
        ensures
            r.names().len() == 0,
            r.current() == 0,
    {
        TabManager { tab_names: Vec::new(), current_tab: 0 }
    }
}

proof fn lemma_next_index_cases(i: nat, n: nat)
    requires
        i < n,
    ensures
        i + 1 < n ==> next_index(i, n) == i + 1,
        i + 1 == n ==> next_index(i, n) == 0,
{
    if i + 1 < n {
        vstd::arithmetic::div_mod::lemma_small_mod((i + 1) as nat, n);
    } else {
        vstd::arithmetic::div_mod::lemma_mod_self_0(n as int);
    }
}

/// Moving to the next tab and then to the previous one returns to the starting
/// tab, for every valid selection.
pub proof fn law_next_then_previous(i: nat, n: nat)
    requires
        n == 0 ==> i == 0,
        n > 0 ==> i < n,
    ensures
        prev_index(next_index(i, n), n) == i,
{
    if n > 0 {
        lemma_next_index_cases(i, n);
    }
}

/// Moving to the previous tab and then to the next one returns to the starting
/// tab, for every valid selection.
pub proof fn law_previous_then_next(i: nat, n: nat)
    requires
        n == 0 ==> i == 0,
        n > 0 ==> i < n,
    ensures
        next_index(prev_index(i, n), n) == i,
{
    if n > 0 {
        lemma_next_index_cases(prev_index(i, n), n);
    }
}

/// Both moves keep the selection on an existing tab.
pub proof fn law_moves_stay_in_range(i: nat, n: nat)
    requires
        n > 0,
        i < n,
    ensures
        next_index(i, n) < n,
        prev_index(i, n) < n,
{
    lemma_next_index_cases(i, n);
}

/// `k` moves to the next tab, starting from tab `i` among `n`.
pub open spec fn next_times(i: nat, n: nat, k: nat) -> nat
    decreases k,
{
    if k == 0 { i } else { next_index(next_times(i, n, (k - 1) as nat), n) }
}

proof fn lemma_next_times_value(i: nat, n: nat, k: nat)
    requires
        n > 0,
        i < n,
    ensures
        next_times(i, n, k) as int == (i + k) as int % (n as int),
    decreases k,
{
    if k == 0 {
        vstd::arithmetic::div_mod::lemma_small_mod(i, n);
    } else {
        lemma_next_times_value(i, n, (k - 1) as nat);
        let x = (i + k - 1) as int;
        vstd::arithmetic::div_mod::lemma_add_mod_noop_right(1, x, n as int);
        assert(next_times(i, n, k) as int == (x % (n as int) + 1) % (n as int));
    }
}

/// Cycling forward once through all `n` tabs comes back to the starting tab.
pub proof fn law_full_cycle(i: nat, n: nat)
    requires
        n > 0,
        i < n,
    ensures
        next_times(i, n, n) == i,
{
    lemma_next_times_value(i, n, n);
    vstd::arithmetic::div_mod::lemma_mod_add_multiples_vanish(i as int, n as int);
    vstd::arithmetic::div_mod::lemma_small_mod(i, n);
}

} // verus!
