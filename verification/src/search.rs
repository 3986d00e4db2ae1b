//! The search orchestrator: a state machine that tries each configured
//! repository prefix in order, and within a prefix each ranked candidate
//! file in order, until one yields the requested spectrum.
//!
//! The machine owns every decision; the caller owns the filesystem.  The
//! caller asks `next_action` what to do — list a directory, or open one
//! candidate file — performs that one piece of outside work, and reports
//! the outcome back through `apply_event`.  The first candidate that yields
//! a spectrum ends the search; when every prefix is exhausted the search
//! ends in `NotFound`.

use vstd::prelude::*;

use crate::enumerate::RepositoryPrefix;
use crate::enumerate::candidates_spec;
use crate::enumerate::is_candidate_name;
use crate::enumerate::join_spec;
use crate::enumerate::lemma_candidates_spec_properties;
use crate::enumerate::views;
use crate::ident::Identifier;
use crate::ident::ResolveError;

verus! {

/// Where the search stands.
#[derive(Debug)]
pub enum SearchState {
    /// About to list the dataset directory of the prefix at this position.
    Listing { prefix: usize },
    /// Working through the candidates of the prefix at `prefix`; the one at
    /// `next` is to be tried now.
    Trying { prefix: usize, candidates: Vec<Vec<u8>>, next: usize },
    /// A candidate of the prefix at this position yielded the spectrum.
    Found { prefix: usize },
    /// Every prefix was tried and none yielded the spectrum.
    NotFound,
}

/// The one piece of outside work the current state asks the caller for.
#[derive(Debug)]
pub enum SearchAction {
    /// List the directory at this path and report the outcome as a
    /// `Listing` event (`None` when the listing fails).
    ListDirectory { path: Vec<u8> },
    /// Open the file at this path, try to extract the requested spectrum,
    /// and report whether that succeeded as an `Extracted` event.
    ExtractFrom { path: Vec<u8> },
    /// Stop: a spectrum was found.
    ReportFound,
    /// Stop: resolution failed; report `SpectrumNotFound`.
    ReportNotFound,
}

/// What the caller observed when it performed the last action.
#[derive(Debug)]
pub enum SearchEvent {
    /// The outcome of listing a dataset directory: the entry names, or
    /// `None` when the directory could not be listed.
    Listing { entries: Option<Vec<Vec<u8>>> },
    /// Whether the candidate file yielded the requested spectrum.
    Extracted { success: bool },
}

/// What every reachable state satisfies: prefix positions are in range, the
/// candidate cursor is in range, and every stored candidate name matches
/// the run (so extraction is only ever asked for matching, non-excluded
/// files).
pub open spec fn state_wf(st: SearchState, prefixes: Seq<RepositoryPrefix>, id: Identifier) -> bool {
    match st {
        SearchState::Listing { prefix } => prefix < prefixes.len(),
        SearchState::Trying { prefix, candidates, next } => {
            &&& prefix < prefixes.len()
            &&& next < candidates@.len()
            &&& forall|i: int|
                0 <= i < views(candidates@).len() ==> #[trigger] is_candidate_name(
                    views(candidates@)[i],
                    id.run_name@,
                )
        },
        SearchState::Found { .. } => true,
        SearchState::NotFound => true,
    }
}

/// The state after one prefix is done with: the next prefix's listing, or
/// `NotFound` after the last one.
pub open spec fn spec_next_prefix(prefix: usize, n: int) -> SearchState {
    if prefix + 1 < n {
        SearchState::Listing { prefix: (prefix + 1) as usize }
    } else {
        SearchState::NotFound
    }
}

fn advance_prefix(prefix: usize, n: usize) -> (r: SearchState)
    requires
        prefix < n,
    ensures
        r == spec_next_prefix(prefix, n as int),
{
    if prefix + 1 < n {
        SearchState::Listing { prefix: prefix + 1 }
    } else {
        SearchState::NotFound
    }
}

/// Begin a search: at the first configured prefix, or already `NotFound`
/// when none is configured.
pub fn search_start(prefixes: &Vec<RepositoryPrefix>, id: &Identifier) -> (r: SearchState)
    ensures
        state_wf(r, prefixes@, *id),
        prefixes@.len() == 0 ==> r == SearchState::NotFound,
        prefixes@.len() > 0 ==> r == (SearchState::Listing { prefix: 0usize }),
{
    if prefixes.len() == 0 {
        SearchState::NotFound
    } else {
        SearchState::Listing { prefix: 0 }
    }
}

/// The outside work the current state asks for.
///
/// A listing state asks for the dataset directory of its prefix; a trying
/// state asks for the candidate file under the cursor; the two terminal
/// states ask for nothing but the final report — once a spectrum is found,
/// no later prefix or candidate is consulted.
pub fn next_action(st: &SearchState, prefixes: &Vec<RepositoryPrefix>, id: &Identifier) -> (r:
    SearchAction)
    requires
        state_wf(*st, prefixes@, *id),
    ensures
        match *st {
            SearchState::Listing { prefix } => r matches SearchAction::ListDirectory { path }
                && path@ == join_spec(prefixes@[prefix as int].root@, id.dataset@),
            SearchState::Trying { prefix, candidates, next } => r matches SearchAction::ExtractFrom {
                path,
            } && path@ == join_spec(
                join_spec(prefixes@[prefix as int].root@, id.dataset@),
                candidates@[next as int]@,
            ),
            SearchState::Found { .. } => r == SearchAction::ReportFound,
            SearchState::NotFound => r == SearchAction::ReportNotFound,
        },
{
    match st {
        SearchState::Listing { prefix } => SearchAction::ListDirectory {
            path: prefixes[*prefix].dataset_dir(id),
        },
        SearchState::Trying { prefix, candidates, next } => SearchAction::ExtractFrom {
            path: prefixes[*prefix].candidate_path(id, &candidates[*next]),
        },
        SearchState::Found { .. } => SearchAction::ReportFound,
        SearchState::NotFound => SearchAction::ReportNotFound,
    }
}

/// Step the search with the outcome of the last action.
///
/// A prefix whose dataset directory cannot be listed — or is empty, which
/// the enumerator reports as equally unavailable — contributes nothing:
/// the search moves on to the next prefix without aborting.  A listed
/// directory hands its entries to the candidate enumerator; with no
/// candidate the prefix is done.  A failed extraction moves the cursor to
/// the next candidate, then to the next prefix; a successful one ends the
/// search at the current prefix, so the first prefix in configuration order
/// that yields a spectrum wins.
pub fn apply_event(
    st: SearchState,
    ev: SearchEvent,
    prefixes: &Vec<RepositoryPrefix>,
    id: &Identifier,
) -> (r: SearchState)
    requires
        state_wf(st, prefixes@, *id),
        st is Listing || st is Trying,
        st is Listing <==> ev is Listing,
    ensures
        state_wf(r, prefixes@, *id),
        match st {
            SearchState::Listing { prefix } => match ev {
                SearchEvent::Listing { entries: None } => r == spec_next_prefix(
                    prefix,
                    prefixes@.len() as int,
                ),
                SearchEvent::Listing { entries: Some(l) } => {
                    let cs = candidates_spec(views(l@), id.run_name@);
                    if l@.len() == 0 || cs.len() == 0 {
                        r == spec_next_prefix(prefix, prefixes@.len() as int)
                    } else {
                        r matches SearchState::Trying { prefix: p2, candidates: c2, next: n2 }
                            && p2 == prefix && views(c2@) == cs && n2 == 0
                    }
                },
                SearchEvent::Extracted { .. } => true,
            },
            SearchState::Trying { prefix, candidates, next } => match ev {
                SearchEvent::Extracted { success: true } => r == (SearchState::Found { prefix }),
                SearchEvent::Extracted { success: false } => {
                    if next + 1 < candidates@.len() {
                        r == (SearchState::Trying { prefix, candidates, next: (next + 1) as usize })
                    } else {
                        r == spec_next_prefix(prefix, prefixes@.len() as int)
                    }
                },
                SearchEvent::Listing { .. } => true,
            },
            _ => true,
        },
{
    match st {
        SearchState::Listing { prefix } => {
            let entries = match ev {
                SearchEvent::Listing { entries } => entries,
                SearchEvent::Extracted { .. } => None,
            };
            match entries {
                None => advance_prefix(prefix, prefixes.len()),
                Some(l) => {
                    let ghost listing = views(l@);
                    match prefixes[prefix].candidates(Some(l), id) {
                        Err(_) => advance_prefix(prefix, prefixes.len()),
                        Ok(c) => {
                            proof {
                                lemma_candidates_spec_properties(listing, id.run_name@);
                            }
                            if c.len() == 0 {
                                advance_prefix(prefix, prefixes.len())
                            } else {
                                SearchState::Trying { prefix, candidates: c, next: 0 }
                            }
                        },
                    }
                },
            }
        },
        SearchState::Trying { prefix, candidates, next } => {
            let success = match ev {
                SearchEvent::Extracted { success } => success,
                SearchEvent::Listing { .. } => false,
            };
            let n = candidates.len();
            if success {
                SearchState::Found { prefix }
            } else {
                if next + 1 < n {
                    SearchState::Trying { prefix, candidates, next: next + 1 }
                } else {
                    advance_prefix(prefix, prefixes.len())
                }
            }
        },
        SearchState::Found { prefix } => SearchState::Found { prefix },
        SearchState::NotFound => SearchState::NotFound,
    }
}

/// The terminal failure: every prefix was tried and none yielded the
/// spectrum.  The error echoes the identifier text for diagnosis.
pub fn not_found_error(id: &Identifier) -> (r: ResolveError)
    ensures
        r matches ResolveError::SpectrumNotFound(u) && u@ == id.usi@,
{
    let mut out: Vec<u8> = Vec::new();
    let mut i: usize = 0;
    while i < id.usi.len()
        invariant
            i <= id.usi@.len(),
            out@ == id.usi@.take(i as int),
        decreases id.usi@.len() - i,
    {
        out.push(id.usi[i]);
        i += 1;
    }
    proof {
        assert(id.usi@.take(id.usi@.len() as int) =~= id.usi@);
    }
    ResolveError::SpectrumNotFound(out)
}

} // verus!
