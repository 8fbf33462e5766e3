//! Probe-grid classification of one repository.
//!
//! A repository is probed at the cross product of branches
//! (`main`, then `master`) and legacy setup files (`setup.cfg`, then
//! `setup.py`), in that fixed priority order. The first probe whose body
//! carries a manifest marker ends the search at once; otherwise every grid
//! point is probed and the verdict records whether any setup file was found
//! at all.

use crate::probe::{grid, grid_target, ProbeTarget, GRID_SIZE};
use vstd::prelude::*;

verus! {

/// Outcome of fetching one (branch, file) grid point.
#[derive(Clone, Copy, Debug, PartialEq, Eq, Structural)]
pub enum ProbeResult {
    /// The file was fetched and its body contains a manifest marker.
    FoundWithMarker,
    /// The file was fetched but its body contains no manifest marker.
    FoundWithoutMarker,
    /// The server answered, but not with the file.
    NotFound,
    /// The fetch itself failed; treated exactly like `NotFound`.
    TransportError,
}

/// The verdict for one repository.
/// Folded into the run summary.
#[derive(Clone, Copy, Debug, PartialEq, Eq, Structural)]
pub struct Classification {
    pub any_found: bool,
    pub is_npe2: bool,
}

/// A probe yielded a file body (with or without the marker).
pub open spec fn is_found(r: ProbeResult) -> bool {
    r == ProbeResult::FoundWithMarker || r == ProbeResult::FoundWithoutMarker
}

/// A probe yielded a file body holding the manifest marker.
pub open spec fn is_marker(r: ProbeResult) -> bool {
    r == ProbeResult::FoundWithMarker
}

/// The verdict after the probes before index `i` gave no marker and
/// `any` says whether one of them yielded a body.
pub open spec fn classify_from(rs: Seq<ProbeResult>, i: int, any: bool) -> Classification
    decreases rs.len() - i,
{
    if i < 0 || i >= rs.len() {
        Classification { any_found: any, is_npe2: false }
    } else if is_marker(rs[i]) {
        Classification { any_found: true, is_npe2: true }
    } else {
        classify_from(rs, i + 1, any || is_found(rs[i]))
    }
}

/// The verdict over the whole grid, `rs` giving the outcome each grid point
/// would yield in priority order.
pub open spec fn spec_classify(rs: Seq<ProbeResult>) -> Classification {
    classify_from(rs, 0, false)
}

/// How many probes the search issues before stopping, counted from index `i`
/// onward: it stops right after the first marker, else runs the grid out.
pub open spec fn probes_used_from(rs: Seq<ProbeResult>, i: int) -> int
    decreases rs.len() - i,
{
    if i < 0 || i >= rs.len() {
        i
    } else if is_marker(rs[i]) {
        i + 1
    } else {
        probes_used_from(rs, i + 1)
    }
}

/// How many probes the search issues in all.
pub open spec fn probes_used(rs: Seq<ProbeResult>) -> int {
    probes_used_from(rs, 0)
}

proof fn lemma_classify_from_npe2(rs: Seq<ProbeResult>, i: int, any: bool)
    ensures
        classify_from(rs, i, any).is_npe2 ==> classify_from(rs, i, any).any_found,
    decreases rs.len() - i,
{
    if i < 0 || i >= rs.len() {
    } else if is_marker(rs[i]) {
    } else {
        lemma_classify_from_npe2(rs, i + 1, any || is_found(rs[i]));
    }
}

/// A manifest marker can only be seen in a body that was fetched, so a
/// targeted-manifest verdict always reports a reachable setup file too.
pub proof fn lemma_manifest_implies_found(rs: Seq<ProbeResult>)
    ensures
        spec_classify(rs).is_npe2 ==> spec_classify(rs).any_found,
{
    lemma_classify_from_npe2(rs, 0, false);
}

/// Run the grid search over the outcome each grid point would yield, in
/// priority order; returns the verdict and how many probes were issued.
pub fn classify_results(results: &Vec<ProbeResult>) -> (out: (Classification, usize))
    ensures
        out.0 == spec_classify(results@),
        out.1 == probes_used(results@),
{
    let mut any: bool = false;
    let mut i: usize = 0;
    while i < results.len()
        invariant
            0 <= i <= results@.len(),
            spec_classify(results@) == classify_from(results@, i as int, any),
            probes_used(results@) == probes_used_from(results@, i as int),
        decreases results@.len() - i,
    {
        let r = results[i];
        if r == ProbeResult::FoundWithMarker {
            return (Classification { any_found: true, is_npe2: true }, i + 1);
        }
        if r == ProbeResult::FoundWithoutMarker {
            any = true;
        }
        i = i + 1;
    }
    (Classification { any_found: any, is_npe2: false }, i)
}

proof fn lemma_no_marker_from(rs: Seq<ProbeResult>, i: int, any: bool)
    requires
        0 <= i <= rs.len(),
        forall|k: int| i <= k < rs.len() ==> !is_marker(#[trigger] rs[k]),
    ensures
        classify_from(rs, i, any) == (Classification {
            any_found: any || exists|k: int| i <= k < rs.len() && is_found(#[trigger] rs[k]),
            is_npe2: false,
        }),
        probes_used_from(rs, i) == rs.len(),
    decreases rs.len() - i,
{
    if i < rs.len() {
        lemma_no_marker_from(rs, i + 1, any || is_found(rs[i]));
        assert((any || exists|k: int| i <= k < rs.len() && is_found(#[trigger] rs[k])) == ((any
            || is_found(rs[i])) || exists|k: int| i + 1 <= k < rs.len() && is_found(
            #[trigger] rs[k],
        )));
    }
}

proof fn lemma_marker_at(rs: Seq<ProbeResult>, i: int, k: int, any: bool)
    requires
        0 <= i <= k < rs.len(),
        is_marker(rs[k]),
        forall|j: int| i <= j < k ==> !is_marker(#[trigger] rs[j]),
    ensures
        classify_from(rs, i, any) == (Classification { any_found: true, is_npe2: true }),
        probes_used_from(rs, i) == k + 1,
    decreases k - i,
{
    if i < k {
        lemma_marker_at(rs, i + 1, k, any || is_found(rs[i]));
    }
}

/// Exhaustion law: when no probe yields a marker, the search runs the whole
/// grid out, reports whether any probe yielded a body, and never claims a
/// manifest.
pub proof fn lemma_search_exhausts_without_marker(rs: Seq<ProbeResult>)
    requires
        forall|k: int| 0 <= k < rs.len() ==> !is_marker(#[trigger] rs[k]),
    ensures
        spec_classify(rs) == (Classification {
            any_found: exists|k: int| 0 <= k < rs.len() && is_found(#[trigger] rs[k]),
            is_npe2: false,
        }),
        probes_used(rs) == rs.len(),
{
    lemma_no_marker_from(rs, 0, false);
}

/// Short-circuit law: the first marker ends the search at once — exactly
/// `k + 1` probes are issued and the verdict is a targeted manifest, whatever
/// the grid would have yielded past `k`.
pub proof fn lemma_search_short_circuits(rs: Seq<ProbeResult>, k: int)
    requires
        0 <= k < rs.len(),
        is_marker(rs[k]),
        forall|j: int| 0 <= j < k ==> !is_marker(#[trigger] rs[j]),
    ensures
        spec_classify(rs) == (Classification { any_found: true, is_npe2: true }),
        probes_used(rs) == k + 1,
{
    lemma_marker_at(rs, 0, k, false);
}

/// Sequential grid search for one repository, fed one probe outcome at a
/// time, so that its driver issues no probe beyond the short-circuit. The
/// grid point to fetch next is `next_target`; `feed` consumes the outcome
/// and yields the verdict as soon as it is settled.
pub struct Classifier {
    idx: usize,
    any: bool,
    done: bool,
    fed: Ghost<Seq<ProbeResult>>,
}

impl Classifier {
    /// The probe outcomes fed so far, in grid priority order.
    pub closed spec fn probes_fed(self) -> Seq<ProbeResult> {
        self.fed@
    }

    /// The search has settled on a verdict.
    pub closed spec fn spec_done(self) -> bool {
        self.done
    }

    /// The search state is consistent with the outcomes fed so far.
    pub closed spec fn wf(self) -> bool {
        &&& self.fed@.len() == self.idx as int
        &&& self.idx <= GRID_SIZE
        &&& (!self.done ==> forall|k: int|
            0 <= k < self.fed@.len() ==> !is_marker(#[trigger] self.fed@[k]))
        &&& (forall|k: int| 0 <= k < self.fed@.len() - 1 ==> !is_marker(#[trigger] self.fed@[k]))
        &&& (self.done <==> (self.fed@.len() == GRID_SIZE as int || exists|k: int|
            0 <= k < self.fed@.len() && is_marker(#[trigger] self.fed@[k])))
        &&& self.any == (exists|k: int|
            0 <= k < self.fed@.len() && is_found(#[trigger] self.fed@[k]))
    }

    /// Start a fresh search: nothing probed, nothing found.
    pub fn new() -> (c: Classifier)
        ensures
            c.wf(),
            c.probes_fed() == Seq::<ProbeResult>::empty(),
            !c.spec_done(),
    {
        Classifier { idx: 0, any: false, done: false, fed: Ghost(Seq::empty()) }
    }

    /// Has the search settled on a verdict?
    pub fn is_done(&self) -> (r: bool)
        ensures
            r == self.spec_done(),
    {
        self.done
    }

    /// The grid point to probe next.
    pub fn next_target(&self) -> (t: ProbeTarget)
        requires
            self.wf(),
            !self.spec_done(),
        ensures
            t == grid(self.probes_fed().len() as int),
    {
        grid_target(self.idx)
    }

    /// Consume the outcome of the probe at `next_target`. Returns the verdict
    /// as soon as it is settled: immediately on a marker (the short-circuit),
    /// or once the grid is exhausted; the number of probes issued then equals
    /// `probes_used` of the outcomes fed.
    pub fn feed(&mut self, r: ProbeResult) -> (out: Option<Classification>)
        requires
            old(self).wf(),
            !old(self).spec_done(),
        ensures
            final(self).wf(),
            final(self).probes_fed() == old(self).probes_fed().push(r),
            final(self).spec_done() <==> (is_marker(r) || old(self).probes_fed().len() + 1
                == GRID_SIZE),
            match out {
                Some(c) => final(self).spec_done() && c == spec_classify(final(self).probes_fed())
                    && probes_used(final(self).probes_fed()) == final(self).probes_fed().len(),
                None => !final(self).spec_done(),
            },
    {
        let ghost pre = self.fed@;
        proof {
            self.fed@ = pre.push(r);
        }
        self.idx = self.idx + 1;
        let found = r == ProbeResult::FoundWithMarker || r == ProbeResult::FoundWithoutMarker;
        if found {
            self.any = true;
        }
        proof {
            if !found {
                assert(self.any == (exists|k: int|
                    0 <= k < self.fed@.len() && is_found(#[trigger] self.fed@[k]))) by {
                    if self.any {
                        let k = choose|k: int| 0 <= k < pre.len() && is_found(#[trigger] pre[k]);
                        assert(is_found(self.fed@[k]));
                    }
                    if exists|k: int| 0 <= k < self.fed@.len() && is_found(#[trigger] self.fed@[k]) {
                        let k = choose|k: int|
                            0 <= k < self.fed@.len() && is_found(#[trigger] self.fed@[k]);
                        if k < pre.len() {
                            assert(is_found(pre[k]));
                        }
                    }
                }
            } else {
                assert(is_found(self.fed@[self.fed@.len() - 1]));
            }
        }
        if r == ProbeResult::FoundWithMarker {
            self.done = true;
            proof {
                assert(is_marker(self.fed@[self.fed@.len() - 1]));
                lemma_search_short_circuits(self.fed@, self.fed@.len() - 1);
            }
            Some(Classification { any_found: true, is_npe2: true })
        } else if self.idx == GRID_SIZE {
            self.done = true;
            proof {
                lemma_search_exhausts_without_marker(self.fed@);
            }
            Some(Classification { any_found: self.any, is_npe2: false })
        } else {
            None
        }
    }
}

} // verus!
