//! Searches whose answers come back later (mods, the skin gallery): each
//! request gets a number, and only the newest request's answer counts.

use vstd::prelude::*;

verus! {

/// A search and its latest results.
#[derive(Debug)]
pub struct Search<T> {
    /// Number of the newest request.
    pub request: u64,
    pub loading: bool,
    pub results: Option<Result<T, String>>,
}

/// The state after an answer to request `request` came back.
pub open spec fn answered<T>(s: Search<T>, request: u64, result: Result<T, String>) -> Search<T> {
    if request == s.request {
        Search { request, loading: false, results: Some(result) }
    } else {
        s
    }
}

/// The state once a new request was sent.
pub open spec fn sent<T>(s: Search<T>) -> Search<T> {
    Search { request: (s.request + 1) as u64, loading: true, results: s.results }
}

impl<T> Search<T> {
    /// No search yet.
    pub fn new() -> (r: Search<T>)
        ensures
            r.request == 0,
            !r.loading,
            r.results is None,
    {
        Search { request: 0, loading: false, results: None }
    }

    /// Send a new search; returns its number, which the answer carries.
    pub fn run(&mut self) -> (id: u64)
        requires
            old(self).request < u64::MAX,
        ensures
            *final(self) == sent(*old(self)),
            id == final(self).request,
    {
        self.request = self.request + 1;
        self.loading = true;
        self.request
    }

    /// A new search from the first page: the old results go away while it
    /// runs.
    pub fn restart(&mut self) -> (id: u64)
        requires
            old(self).request < u64::MAX,
        ensures
            *final(self) == (Search::<T> { results: None, ..sent(*old(self)) }),
            id == final(self).request,
    {
        self.results = None;
        self.run()
    }

    /// An answer came back; answers to older requests are dropped.
    pub fn on_results(&mut self, request: u64, result: Result<T, String>)
        ensures
            *final(self) == answered(*old(self), request, result),
    {
        if request == self.request {
            self.loading = false;
            self.results = Some(result);
        }
    }

    /// The first time the list is shown (nothing fetched, nothing
    /// running), it searches.
    pub fn needs_first_search(&self) -> (r: bool)
        ensures
            r == (self.results is None && !self.loading),
    {
        self.results.is_none() && !self.loading
    }

    /// Forget the results, so the list is fetched again.
    pub fn clear(&mut self)
        ensures
            final(self).results is None,
            final(self).request == old(self).request,
            final(self).loading == old(self).loading,
    {
        self.results = None;
    }
}

/// Once a new search was sent, the answer to any earlier request changes
/// nothing.
pub proof fn law_older_answers_dropped<T>(s: Search<T>, request: u64, result: Result<T, String>)
    requires
        s.request < u64::MAX,
        request <= s.request,
    ensures
        answered(sent(s), request, result) == sent(s),
{
}

/// The answer to the newest request is what the list shows.
pub proof fn law_newest_answer_shown<T>(s: Search<T>, result: Result<T, String>)
    requires
        s.request < u64::MAX,
    ensures
        answered(sent(s), sent(s).request, result).results == Some(result),
        !answered(sent(s), sent(s).request, result).loading,
{
}

} // verus!
