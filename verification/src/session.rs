//! Which search is the active one.

use crate::inspection::name_passes;
use crate::matchers::SearchMatchers;
use crate::request::SearchRequest;
use crate::search::{accepts, ascii_patterns, is_filter_for, refuses, validate};
use crate::wildcard::selects;
use regex::bytes::Regex;
use vstd::prelude::*;

verus! {

/// The number of the active search. Starting a search and cancelling one both
/// move it on, so that the searches before are no longer active.
pub struct AppState {
    pub active_search: u64,
}

/// The number after `n`; the largest is followed by zero.
pub open spec fn next_number(n: u64) -> u64 {
    if n == u64::MAX {
        0
    } else {
        (n + 1) as u64
    }
}

/// The number that stands `steps` after `n`.
pub open spec fn number_after(n: u64, steps: nat) -> u64
    decreases steps,
{
    if steps == 0 {
        n
    } else {
        next_number(number_after(n, (steps - 1) as nat))
    }
}

impl AppState {
    /// The state before any search.
    pub fn new() -> (state: AppState)
        ensures
            state.active_search == 0,
    {
        AppState { active_search: 0 }
    }

    /// Makes a search for a valid request the active one, and gives its number
    /// with what it is searched with. A request that is not valid is answered
    /// with the reason, and the active search stays the active one. Where the
    /// patterns are ASCII, the filter lets a name without line feeds pass exactly
    /// if the patterns select it.
    pub fn start_search(&mut self, req: &SearchRequest, is_directory: bool) -> (r: Result<
        (u64, SearchMatchers, Option<Regex>),
        String,
    >)
        ensures
            match r {
                Ok((id, matchers, filter)) => {
                    &&& accepts(*req, is_directory, matchers, filter)
                    &&& id == next_number(old(self).active_search)
                    &&& final(self).active_search == id
                },
                Err(m) => refuses(*req, is_directory, m@) && *final(self) == *old(self),
            },
            r is Ok ==> r->Ok_0.0 == (old(self).active_search + 1) % (u64::MAX + 1),
            r is Ok ==> final(self).active_search == r->Ok_0.0,
            r is Ok ==> is_filter_for(r->Ok_0.2, req.file_pattern@),
            r is Ok ==> forall|name: &str, pass: bool| #[trigger]
                call_ensures(name_passes, (&r->Ok_0.2, name), pass) && ascii_patterns(
                    req.file_pattern@,
                ) && !name@.contains('\n') ==> pass == selects(req.file_pattern@, name@),
    {
        match validate(req, is_directory) {
            Ok((matchers, filter)) => {
                self.active_search = self.active_search.wrapping_add(1);
                Ok((self.active_search, matchers, filter))
            },
            Err(m) => Err(m),
        }
    }

    /// Makes no search the active one.
    pub fn cancel_search(&mut self)
        ensures
            final(self).active_search == next_number(old(self).active_search),
            final(self).active_search == (old(self).active_search + 1) % (u64::MAX + 1),
    {
        self.active_search = self.active_search.wrapping_add(1);
    }
}

proof fn lemma_number_after(n: u64, steps: nat)
    ensures
        number_after(n, steps) == (n + steps) % (u64::MAX + 1),
    decreases steps,
{
    if steps > 0 {
        lemma_number_after(n, (steps - 1) as nat);
        let m = n + steps - 1;
        if m % (u64::MAX + 1) == u64::MAX {
            assert((m + 1) % (u64::MAX + 1) == 0);
        } else {
            assert((m + 1) % (u64::MAX + 1) == m % (u64::MAX + 1) + 1);
        }
    }
}

/// A search stays inactive after it was cancelled or another one was started,
/// however often that happens, until the numbers have gone round.
pub proof fn a_search_left_behind_stays_inactive(id: u64, steps: nat)
    requires
        0 < steps <= u64::MAX,
    ensures
        number_after(id, steps) != id,
{
    lemma_number_after(id, steps);
    if id + steps <= u64::MAX {
        assert((id + steps) % (u64::MAX + 1) == id + steps);
    } else {
        assert((id + steps) % (u64::MAX + 1) == id + steps - (u64::MAX + 1));
    }
}

} // verus!
