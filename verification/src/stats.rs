//! Aggregation of per-repository classifications into one summary.
//!
//! Classifications arrive in whatever order the concurrent probing completes,
//! so every merge is a single serialized step and the summary is proved
//! independent of the completion order (up to the final sorting of the two
//! identifier lists).

use crate::classify::Classification;
use crate::text::{copy_bytes, dv, lex_leq, sort_ids};
use vstd::prelude::*;

verus! {

/// One classified repository: its identifier and its verdict.
pub struct Verdict {
    pub id: Vec<u8>,
    pub c: Classification,
}

/// Mathematical model of one classified repository.
pub type Row = (Seq<u8>, Classification);

/// Mathematical model of the running summary.
#[verifier::ext_equal]
pub ghost struct StatsModel {
    pub total: int,
    pub success: int,
    pub npe2: int,
    pub stragglers: Seq<Seq<u8>>,
    pub failures: Seq<Seq<u8>>,
}

pub open spec fn row_of(v: Verdict) -> Row {
    (v.id@, v.c)
}

pub open spec fn rows_view(vs: Seq<Verdict>) -> Seq<Row> {
    vs.map_values(|v: Verdict| row_of(v))
}

pub open spec fn empty_stats() -> StatsModel {
    StatsModel {
        total: 0,
        success: 0,
        npe2: 0,
        stragglers: Seq::empty(),
        failures: Seq::empty(),
    }
}

/// One merge step: count the verdict and file its identifier.
pub open spec fn merge_one(m: StatsModel, id: Seq<u8>, c: Classification) -> StatsModel {
    StatsModel {
        total: m.total + 1,
        success: m.success + if c.any_found {
            1int
        } else {
            0int
        },
        npe2: m.npe2 + if c.is_npe2 {
            1int
        } else {
            0int
        },
        stragglers: if c.any_found && !c.is_npe2 {
            m.stragglers.push(id)
        } else {
            m.stragglers
        },
        failures: if !c.any_found {
            m.failures.push(id)
        } else {
            m.failures
        },
    }
}

/// How many rows report a reachable setup file.
pub open spec fn count_any(rows: Seq<Row>) -> int
    decreases rows.len(),
{
    if rows.len() == 0 {
        0
    } else {
        count_any(rows.drop_last()) + if rows.last().1.any_found {
            1int
        } else {
            0int
        }
    }
}

/// How many rows report a targeted manifest.
pub open spec fn count_npe2(rows: Seq<Row>) -> int
    decreases rows.len(),
{
    if rows.len() == 0 {
        0
    } else {
        count_npe2(rows.drop_last()) + if rows.last().1.is_npe2 {
            1int
        } else {
            0int
        }
    }
}

/// A straggler row: a setup file was found but no manifest marker.
pub open spec fn is_straggler(r: Row) -> bool {
    r.1.any_found && !r.1.is_npe2
}

/// A failure row: no setup file was reachable at all.
pub open spec fn is_failure(r: Row) -> bool {
    !r.1.any_found
}

/// The identifiers of the straggler rows, in row order.
pub open spec fn stragglers_of(rows: Seq<Row>) -> Seq<Seq<u8>>
    decreases rows.len(),
{
    if rows.len() == 0 {
        Seq::empty()
    } else {
        let rest = stragglers_of(rows.drop_last());
        if is_straggler(rows.last()) {
            rest.push(rows.last().0)
        } else {
            rest
        }
    }
}

/// The identifiers of the failure rows, in row order.
pub open spec fn failures_of(rows: Seq<Row>) -> Seq<Seq<u8>>
    decreases rows.len(),
{
    if rows.len() == 0 {
        Seq::empty()
    } else {
        let rest = failures_of(rows.drop_last());
        if is_failure(rows.last()) {
            rest.push(rows.last().0)
        } else {
            rest
        }
    }
}

/// The summary that folding a whole row sequence produces.
pub open spec fn summary_of(rows: Seq<Row>) -> StatsModel {
    StatsModel {
        total: rows.len() as int,
        success: count_any(rows),
        npe2: count_npe2(rows),
        stragglers: stragglers_of(rows),
        failures: failures_of(rows),
    }
}

/// Internal consistency of a summary: the counts nest and the two lists
/// account for exactly the non-manifest successes and the failures.
pub open spec fn inv(m: StatsModel) -> bool {
    &&& 0 <= m.npe2 <= m.success <= m.total
    &&& m.stragglers.len() == m.success - m.npe2
    &&& m.failures.len() == m.total - m.success
}

/// Running summary of the classification run.
pub struct Stats {
    pub total: usize,
    pub success: usize,
    pub npe2: usize,
    pub stragglers: Vec<Vec<u8>>,
    pub failures: Vec<Vec<u8>>,
}

impl View for Stats {
    type V = StatsModel;

    open spec fn view(&self) -> StatsModel {
        StatsModel {
            total: self.total as int,
            success: self.success as int,
            npe2: self.npe2 as int,
            stragglers: dv(self.stragglers@),
            failures: dv(self.failures@),
        }
    }
}

impl Stats {
    /// The empty summary, before any classification has been merged.
    pub fn new() -> (s: Stats)
        ensures
            s@ == empty_stats(),
            inv(s@),
    {
        let s = Stats {
            total: 0,
            success: 0,
            npe2: 0,
            stragglers: Vec::new(),
            failures: Vec::new(),
        };
        proof {
            assert(s@ =~= empty_stats());
        }
        s
    }

    /// Merge one classification into the summary. Callers serialize these
    /// steps; this is the only mutation point of the whole run.
    pub fn merge(&mut self, id: Vec<u8>, c: Classification)
        requires
            inv(old(self)@),
            old(self)@.total < usize::MAX,
            c.is_npe2 ==> c.any_found,
        ensures
            final(self)@ == merge_one(old(self)@, id@, c),
            inv(final(self)@),
    {
        let ghost pre = self@;
        let ghost idv = id@;
        self.total = self.total + 1;
        if c.any_found {
            self.success = self.success + 1;
        }
        if c.is_npe2 {
            self.npe2 = self.npe2 + 1;
        }
        if c.any_found && !c.is_npe2 {
            self.stragglers.push(id);
            proof {
                assert(dv(self.stragglers@) =~= pre.stragglers.push(idv));
            }
        } else if !c.any_found {
            self.failures.push(id);
            proof {
                assert(dv(self.failures@) =~= pre.failures.push(idv));
            }
        }
        proof {
            assert(self@ =~= merge_one(pre, idv, c));
        }
    }
}

/// The identifier views stand in lexicographic order.
pub open spec fn views_sorted(s: Seq<Seq<u8>>) -> bool {
    forall|i: int, j: int| 0 <= i < j < s.len() ==> lex_leq(s[i], s[j])
}

/// Two sorted identifier lists holding the same identifiers the same number
/// of times are one and the same list. Together with the order-independence
/// of the fold, the finalized summaries of any two completion orders are
/// therefore identical.
pub proof fn lemma_sorted_lists_identical(a: Seq<Seq<u8>>, b: Seq<Seq<u8>>)
    requires
        views_sorted(a),
        views_sorted(b),
        a.to_multiset() == b.to_multiset(),
    ensures
        a == b,
    decreases a.len(),
{
    broadcast use vstd::seq_lib::group_to_multiset_ensures;

    assert(a.to_multiset().len() == a.len());
    assert(b.to_multiset().len() == b.len());
    if a.len() == 0 {
        assert(a =~= b);
    } else {
        assert(a.contains(a[0]));
        assert(b.to_multiset().count(a[0]) > 0);
        assert(b.contains(a[0]));
        let i = choose|i: int| 0 <= i < b.len() && b[i] == a[0];
        assert(a.to_multiset().count(b[0]) > 0);
        assert(a.contains(b[0]));
        let j = choose|j: int| 0 <= j < a.len() && a[j] == b[0];
        assert(lex_leq(b[0], a[0])) by {
            if i > 0 {
                assert(lex_leq(b[0], b[i]));
            } else {
                crate::text::lemma_lex_leq_refl(b[0]);
            }
        }
        assert(lex_leq(a[0], b[0])) by {
            if j > 0 {
                assert(lex_leq(a[0], a[j]));
            } else {
                crate::text::lemma_lex_leq_refl(a[0]);
            }
        }
        crate::text::lemma_lex_leq_antisym(a[0], b[0]);
        let at = a.drop_first();
        let bt = b.drop_first();
        assert(at =~= a.remove(0));
        assert(bt =~= b.remove(0));
        assert(at.to_multiset() == a.to_multiset().remove(a[0]));
        assert(bt.to_multiset() == b.to_multiset().remove(b[0]));
        assert(views_sorted(at)) by {
            assert(forall|k: int| 0 <= k < at.len() ==> at[k] == a[k + 1]);
        }
        assert(views_sorted(bt)) by {
            assert(forall|k: int| 0 <= k < bt.len() ==> bt[k] == b[k + 1]);
        }
        lemma_sorted_lists_identical(at, bt);
        assert(a =~= b) by {
            assert(forall|k: int| 1 <= k < a.len() ==> a[k] == at[k - 1] && b[k] == bt[k - 1]);
        }
    }
}

impl Stats {
    /// Sort the two identifier lists for deterministic reporting; the counts
    /// and the lists' contents are untouched.
    pub fn finalize(self) -> (r: Stats)
        ensures
            r@.total == self@.total,
            r@.success == self@.success,
            r@.npe2 == self@.npe2,
            views_sorted(r@.stragglers),
            views_sorted(r@.failures),
            r@.stragglers.to_multiset() == self@.stragglers.to_multiset(),
            r@.failures.to_multiset() == self@.failures.to_multiset(),
            inv(self@) ==> inv(r@),
    {
        let ghost pre = self@;
        let stragglers = sort_ids(self.stragglers);
        let failures = sort_ids(self.failures);
        let r = Stats {
            total: self.total,
            success: self.success,
            npe2: self.npe2,
            stragglers,
            failures,
        };
        proof {
            broadcast use vstd::seq_lib::group_to_multiset_ensures;

            assert(r@.stragglers.to_multiset().len() == r@.stragglers.len());
            assert(pre.stragglers.to_multiset().len() == pre.stragglers.len());
            assert(r@.failures.to_multiset().len() == r@.failures.len());
            assert(pre.failures.to_multiset().len() == pre.failures.len());
        }
        r
    }

    /// Share of targeted manifests among successes, in thousandths; it is
    /// undefined when nothing succeeded, rather than a silent division by
    /// zero.
    pub fn npe2_share_permille(&self) -> (r: Option<u64>)
        requires
            inv(self@),
        ensures
            self@.success == 0 ==> r is None,
            self@.success > 0 ==> r == Some((self@.npe2 * 1000 / self@.success) as u64),
    {
        if self.success == 0 {
            None
        } else {
            let num: u128 = (self.npe2 as u128) * 1000;
            let q: u128 = num / (self.success as u128);
            assert(self@.npe2 * 1000 / self@.success <= 1000) by (nonlinear_arith)
                requires
                    0 < self@.success,
                    0 <= self@.npe2 <= self@.success,
            ;
            Some(q as u64)
        }
    }
}

/// A repository whose grid search found no setup file at all is filed in the
/// failure list, and removing its row leaves the success count unchanged: it
/// contributes nothing to it.
pub proof fn lemma_unreachable_filed_as_failure(rows: Seq<Row>, i: int)
    requires
        0 <= i < rows.len(),
        !rows[i].1.any_found,
    ensures
        summary_of(rows).failures.contains(rows[i].0),
        count_any(rows) == count_any(rows.remove(i)),
    decreases rows.len(),
{
    let d = rows.drop_last();
    if i == rows.len() - 1 {
        assert(rows.remove(i) =~= d);
        assert(failures_of(rows).last() == rows[i].0);
    } else {
        lemma_unreachable_filed_as_failure(d, i);
        let r = rows.remove(i);
        assert(r.drop_last() =~= d.remove(i));
        assert(r.last() == rows.last());
        assert(failures_of(rows).contains(rows[i].0)) by {
            let k = choose|k: int|
                0 <= k < failures_of(d).len() && failures_of(d)[k] == rows[i].0;
            if is_failure(rows.last()) {
                assert(failures_of(rows)[k] == rows[i].0);
            } else {
                assert(failures_of(rows)[k] == rows[i].0);
            }
        }
    }
}

/// Where a straggler identifier can come from: exactly the rows that found a
/// setup file but no manifest marker. So the straggler list draws only from
/// successful, non-manifest rows.
pub proof fn lemma_straggler_membership(rows: Seq<Row>, x: Seq<u8>)
    ensures
        stragglers_of(rows).contains(x) <==> exists|i: int|
            0 <= i < rows.len() && rows[i].0 == x && is_straggler(#[trigger] rows[i]),
    decreases rows.len(),
{
    if rows.len() > 0 {
        let d = rows.drop_last();
        lemma_straggler_membership(d, x);
        if stragglers_of(rows).contains(x) {
            let k = choose|k: int|
                0 <= k < stragglers_of(rows).len() && stragglers_of(rows)[k] == x;
            if is_straggler(rows.last()) && k == stragglers_of(rows).len() - 1 {
                assert(rows[rows.len() - 1].0 == x && is_straggler(rows[rows.len() - 1]));
            } else {
                assert(stragglers_of(d)[k] == x);
                let i = choose|i: int|
                    0 <= i < d.len() && d[i].0 == x && is_straggler(#[trigger] d[i]);
                assert(rows[i].0 == x && is_straggler(rows[i]));
            }
        }
        if exists|i: int| 0 <= i < rows.len() && rows[i].0 == x && is_straggler(#[trigger] rows[i]) {
            let i = choose|i: int|
                0 <= i < rows.len() && rows[i].0 == x && is_straggler(#[trigger] rows[i]);
            if i == rows.len() - 1 {
                assert(stragglers_of(rows).last() == x);
            } else {
                assert(d[i].0 == x && is_straggler(d[i]));
                let k = choose|k: int|
                    0 <= k < stragglers_of(d).len() && stragglers_of(d)[k] == x;
                assert(stragglers_of(rows)[k] == x);
            }
        }
    }
}

/// Where a failure identifier can come from: exactly the rows that found
/// nothing.
pub proof fn lemma_failure_membership(rows: Seq<Row>, x: Seq<u8>)
    ensures
        failures_of(rows).contains(x) <==> exists|i: int|
            0 <= i < rows.len() && rows[i].0 == x && is_failure(#[trigger] rows[i]),
    decreases rows.len(),
{
    if rows.len() > 0 {
        let d = rows.drop_last();
        lemma_failure_membership(d, x);
        if failures_of(rows).contains(x) {
            let k = choose|k: int| 0 <= k < failures_of(rows).len() && failures_of(rows)[k] == x;
            if is_failure(rows.last()) && k == failures_of(rows).len() - 1 {
                assert(rows[rows.len() - 1].0 == x && is_failure(rows[rows.len() - 1]));
            } else {
                assert(failures_of(d)[k] == x);
                let i = choose|i: int|
                    0 <= i < d.len() && d[i].0 == x && is_failure(#[trigger] d[i]);
                assert(rows[i].0 == x && is_failure(rows[i]));
            }
        }
        if exists|i: int| 0 <= i < rows.len() && rows[i].0 == x && is_failure(#[trigger] rows[i]) {
            let i = choose|i: int|
                0 <= i < rows.len() && rows[i].0 == x && is_failure(#[trigger] rows[i]);
            if i == rows.len() - 1 {
                assert(failures_of(rows).last() == x);
            } else {
                assert(d[i].0 == x && is_failure(d[i]));
                let k = choose|k: int| 0 <= k < failures_of(d).len() && failures_of(d)[k] == x;
                assert(failures_of(rows)[k] == x);
            }
        }
    }
}

/// With pairwise-distinct identifiers, no identifier is both a straggler and
/// a failure: the two residual lists are disjoint.
pub proof fn lemma_stragglers_disjoint_from_failures(rows: Seq<Row>, x: Seq<u8>)
    requires
        forall|i: int, j: int|
            #![trigger rows[i], rows[j]]
            0 <= i < rows.len() && 0 <= j < rows.len() && i != j ==> rows[i].0 != rows[j].0,
    ensures
        !(stragglers_of(rows).contains(x) && failures_of(rows).contains(x)),
{
    lemma_straggler_membership(rows, x);
    lemma_failure_membership(rows, x);
    if stragglers_of(rows).contains(x) && failures_of(rows).contains(x) {
        let i = choose|i: int|
            0 <= i < rows.len() && rows[i].0 == x && is_straggler(#[trigger] rows[i]);
        let j = choose|j: int|
            0 <= j < rows.len() && rows[j].0 == x && is_failure(#[trigger] rows[j]);
        assert(i != j ==> rows[i].0 != rows[j].0);
        assert(false);
    }
}

proof fn lemma_summary_remove_one(rows: Seq<Row>, i: int)
    requires
        0 <= i < rows.len(),
    ensures
        count_any(rows) == count_any(rows.remove(i)) + if rows[i].1.any_found {
            1int
        } else {
            0int
        },
        count_npe2(rows) == count_npe2(rows.remove(i)) + if rows[i].1.is_npe2 {
            1int
        } else {
            0int
        },
        stragglers_of(rows).to_multiset() == if is_straggler(rows[i]) {
            stragglers_of(rows.remove(i)).to_multiset().insert(rows[i].0)
        } else {
            stragglers_of(rows.remove(i)).to_multiset()
        },
        failures_of(rows).to_multiset() == if is_failure(rows[i]) {
            failures_of(rows.remove(i)).to_multiset().insert(rows[i].0)
        } else {
            failures_of(rows.remove(i)).to_multiset()
        },
    decreases rows.len(),
{
    broadcast use vstd::seq_lib::group_to_multiset_ensures;

    let d = rows.drop_last();
    let r = rows.remove(i);
    if i == rows.len() - 1 {
        assert(r =~= d);
    } else {
        lemma_summary_remove_one(d, i);
        assert(r.drop_last() =~= d.remove(i));
        assert(r.last() == rows.last());
        let x = rows.last();
        if is_straggler(x) {
            assert(stragglers_of(rows) == stragglers_of(d).push(x.0));
            assert(stragglers_of(r) == stragglers_of(d.remove(i)).push(x.0));
            if is_straggler(rows[i]) {
                assert(stragglers_of(rows).to_multiset() =~= stragglers_of(r).to_multiset().insert(
                    rows[i].0,
                ));
            }
        } else {
            assert(stragglers_of(rows) == stragglers_of(d));
            assert(stragglers_of(r) == stragglers_of(d.remove(i)));
        }
        if is_failure(x) {
            assert(failures_of(rows) == failures_of(d).push(x.0));
            assert(failures_of(r) == failures_of(d.remove(i)).push(x.0));
            if is_failure(rows[i]) {
                assert(failures_of(rows).to_multiset() =~= failures_of(r).to_multiset().insert(
                    rows[i].0,
                ));
            }
        } else {
            assert(failures_of(rows) == failures_of(d));
            assert(failures_of(r) == failures_of(d.remove(i)));
        }
    }
}

/// Folding the same set of classifications in any order yields the same
/// counts and, as multisets, the same straggler and failure lists — so after
/// the final sort the whole summary is identical whatever the completion
/// order was.
pub proof fn lemma_summary_order_independent(r1: Seq<Row>, r2: Seq<Row>)
    requires
        r1.to_multiset() == r2.to_multiset(),
    ensures
        summary_of(r1).total == summary_of(r2).total,
        summary_of(r1).success == summary_of(r2).success,
        summary_of(r1).npe2 == summary_of(r2).npe2,
        summary_of(r1).stragglers.to_multiset() == summary_of(r2).stragglers.to_multiset(),
        summary_of(r1).failures.to_multiset() == summary_of(r2).failures.to_multiset(),
    decreases r1.len(),
{
    broadcast use vstd::seq_lib::group_to_multiset_ensures;

    assert(r1.to_multiset().len() == r1.len());
    assert(r2.to_multiset().len() == r2.len());
    if r1.len() == 0 {
        assert(r2.len() == 0);
    } else {
        let x = r1.last();
        assert(r1.contains(x));
        assert(r2.to_multiset().count(x) > 0);
        assert(r2.contains(x));
        let j = choose|j: int| 0 <= j < r2.len() && r2[j] == x;
        let r1p = r1.drop_last();
        let r2p = r2.remove(j);
        assert(r1p =~= r1.remove(r1.len() - 1));
        assert(r1p.to_multiset() == r1.to_multiset().remove(x));
        assert(r2p.to_multiset() == r2.to_multiset().remove(x));
        lemma_summary_order_independent(r1p, r2p);
        lemma_summary_remove_one(r2, j);
        if is_straggler(x) {
            assert(stragglers_of(r1).to_multiset() =~= stragglers_of(r1p).to_multiset().insert(
                x.0,
            ));
        }
        if is_failure(x) {
            assert(failures_of(r1).to_multiset() =~= failures_of(r1p).to_multiset().insert(x.0));
        }
    }
}

/// Fold a batch of verdicts into a summary, one serialized merge per row.
pub fn aggregate(rows: &Vec<Verdict>) -> (s: Stats)
    requires
        forall|i: int|
            0 <= i < rows@.len() ==> (rows@[i].c.is_npe2 ==> #[trigger] rows@[i].c.any_found),
    ensures
        s@ == summary_of(rows_view(rows@)),
        inv(s@),
{
    let n = rows.len();
    let mut s = Stats::new();
    let mut i: usize = 0;
    proof {
        assert(rows_view(rows@.subrange(0, 0)) =~= Seq::<Row>::empty());
    }
    while i < n
        invariant
            0 <= i <= n,
            n == rows@.len(),
            forall|k: int|
                0 <= k < rows@.len() ==> (rows@[k].c.is_npe2 ==> #[trigger] rows@[k].c.any_found),
            s@ == summary_of(rows_view(rows@.subrange(0, i as int))),
            inv(s@),
            s@.total == i,
        decreases n - i,
    {
        let id = copy_bytes(&rows[i].id);
        let c = rows[i].c;
        s.merge(id, c);
        proof {
            let prefix = rows_view(rows@.subrange(0, i as int));
            let next = rows_view(rows@.subrange(0, i + 1));
            assert(next.drop_last() =~= prefix);
            assert(next.last() == row_of(rows@[i as int]));
        }
        i = i + 1;
    }
    proof {
        assert(rows@.subrange(0, n as int) =~= rows@);
    }
    s
}

/// The whole aggregation of one run: fold every verdict into the summary,
/// then sort the two identifier lists for deterministic reporting.
pub fn summarize(rows: &Vec<Verdict>) -> (s: Stats)
    requires
        forall|i: int|
            0 <= i < rows@.len() ==> (rows@[i].c.is_npe2 ==> #[trigger] rows@[i].c.any_found),
    ensures
        s@.total == rows@.len(),
        s@.success == count_any(rows_view(rows@)),
        s@.npe2 == count_npe2(rows_view(rows@)),
        s@.stragglers.to_multiset() == stragglers_of(rows_view(rows@)).to_multiset(),
        s@.failures.to_multiset() == failures_of(rows_view(rows@)).to_multiset(),
        views_sorted(s@.stragglers),
        views_sorted(s@.failures),
        inv(s@),
{
    let s = aggregate(rows);
    s.finalize()
}

} // verus!
