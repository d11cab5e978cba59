//! Facts that hold of every collection and every report.

use vstd::prelude::*;

use crate::collect::{collected, has_identity, step};
use crate::commit::{record_of, CommitView, Revision};
use crate::report::{is_pending_order, is_report, precedes, strictly_ordered};

verus! {

/// Dedup: no two records that one walk collects share a pull-request number.
pub proof fn lemma_collected_distinct(revs: Seq<Revision>, cutoff: int)
    ensures
        forall|i: int, j: int|
            0 <= i < j < collected(revs, cutoff).len() ==> collected(revs, cutoff)[i].identity
                != collected(revs, cutoff)[j].identity,
    decreases revs.len(),
{
    if revs.len() > 0 {
        let s = collected(revs.drop_last(), cutoff);
        lemma_collected_distinct(revs.drop_last(), cutoff);
        let c = record_of(revs.last());
        let t = collected(revs, cutoff);
        assert(t == step(s, revs.last(), cutoff));
        if c.timestamp >= cutoff && !has_identity(s, c.identity) {
            assert forall|i: int, j: int| 0 <= i < j < t.len() implies t[i].identity
                != t[j].identity by {
                assert(t[i] == s[i]);
                if j == s.len() {
                    if s[i].identity == c.identity {
                        assert(has_identity(s, c.identity));
                    }
                } else {
                    assert(t[j] == s[j]);
                }
            }
        }
    }
}

/// Cutoff: every record that a walk collects is at or after the cutoff.
pub proof fn lemma_collected_after_cutoff(revs: Seq<Revision>, cutoff: int)
    ensures
        forall|i: int|
            0 <= i < collected(revs, cutoff).len() ==> #[trigger] collected(
                revs,
                cutoff,
            )[i].timestamp >= cutoff,
    decreases revs.len(),
{
    if revs.len() > 0 {
        let s = collected(revs.drop_last(), cutoff);
        lemma_collected_after_cutoff(revs.drop_last(), cutoff);
        let t = collected(revs, cutoff);
        assert forall|i: int| 0 <= i < t.len() implies t[i].timestamp >= cutoff by {
            if i < s.len() {
                assert(t[i] == s[i]);
            }
        }
    }
}

/// Difference: no record of a report carries a pull-request number that the
/// maintenance branch's collection holds.
pub proof fn lemma_report_excludes_backport(
    main: Seq<Revision>,
    backport: Seq<Revision>,
    cutoff: int,
    p: Seq<CommitView>,
)
    requires
        is_pending_order(p, collected(main, cutoff), collected(backport, cutoff)),
    ensures
        forall|i: int|
            0 <= i < p.len() ==> !has_identity(collected(backport, cutoff), #[trigger] p[i].identity),
{
    assert forall|i: int| 0 <= i < p.len() implies !has_identity(
        collected(backport, cutoff),
        #[trigger] p[i].identity,
    ) by {
        assert(p.contains(p[i]));
    }
}

/// Ordering: the records of a report never go back in time.
pub proof fn lemma_report_chronological(
    main: Seq<Revision>,
    backport: Seq<Revision>,
    cutoff: int,
    p: Seq<CommitView>,
)
    requires
        is_pending_order(p, collected(main, cutoff), collected(backport, cutoff)),
    ensures
        forall|i: int, j: int| 0 <= i < j < p.len() ==> p[i].timestamp <= p[j].timestamp,
{
    assert forall|i: int, j: int| 0 <= i < j < p.len() implies p[i].timestamp
        <= p[j].timestamp by {
        assert(precedes(p[i], p[j]));
    }
}

/// Two sequences in report order with the same records are the same sequence.
pub proof fn lemma_ordered_unique(p1: Seq<CommitView>, p2: Seq<CommitView>)
    requires
        strictly_ordered(p1),
        strictly_ordered(p2),
        forall|c: CommitView| p1.contains(c) <==> p2.contains(c),
    ensures
        p1 == p2,
    decreases p1.len(),
{
    if p1.len() == 0 {
        if p2.len() > 0 {
            assert(p2.contains(p2[0]));
        }
        assert(p1 =~= p2);
    } else {
        if p2.len() == 0 {
            assert(p1.contains(p1[0]));
        }
        let a = p1[0];
        let b = p2[0];
        assert(p1.contains(a));
        assert(p2.contains(b));
        let k = choose|k: int| 0 <= k < p2.len() && p2[k] == a;
        let l = choose|l: int| 0 <= l < p1.len() && p1[l] == b;
        if k > 0 {
            assert(precedes(b, a));
            assert(l > 0 ==> precedes(a, b));
        }
        assert(a == b);
        let r1 = p1.drop_first();
        let r2 = p2.drop_first();
        assert forall|c: CommitView| r1.contains(c) <==> r2.contains(c) by {
            if r1.contains(c) {
                let i = choose|i: int| 0 <= i < r1.len() && r1[i] == c;
                assert(p1[i + 1] == c);
                assert(precedes(a, c));
                assert(p1.contains(c));
                let j = choose|j: int| 0 <= j < p2.len() && p2[j] == c;
                assert(j != 0);
                assert(r2[j - 1] == c);
            }
            if r2.contains(c) {
                let i = choose|i: int| 0 <= i < r2.len() && r2[i] == c;
                assert(p2[i + 1] == c);
                assert(precedes(b, c));
                assert(p2.contains(c));
                let j = choose|j: int| 0 <= j < p1.len() && p1[j] == c;
                assert(j != 0);
                assert(r1[j - 1] == c);
            }
        }
        assert forall|i: int, j: int| 0 <= i < j < r1.len() implies precedes(r1[i], r1[j]) by {
            assert(precedes(p1[i + 1], p1[j + 1]));
        }
        assert forall|i: int, j: int| 0 <= i < j < r2.len() implies precedes(r2[i], r2[j]) by {
            assert(precedes(p2[i + 1], p2[j + 1]));
        }
        lemma_ordered_unique(r1, r2);
        assert(p1 =~= seq![a] + r1);
        assert(p2 =~= seq![b] + r2);
    }
}

/// Idempotence: the report on given walks and cutoff is one sequence of lines.
pub proof fn lemma_report_deterministic(
    main: Seq<Revision>,
    backport: Seq<Revision>,
    cutoff: int,
    lines1: Seq<Seq<char>>,
    lines2: Seq<Seq<char>>,
)
    requires
        is_report(main, backport, cutoff, lines1),
        is_report(main, backport, cutoff, lines2),
    ensures
        lines1 == lines2,
{
    let m = collected(main, cutoff);
    let b = collected(backport, cutoff);
    let p1 = choose|p: Seq<CommitView>|
        is_pending_order(p, m, b) && lines1 == crate::report::render_all(p);
    let p2 = choose|p: Seq<CommitView>|
        is_pending_order(p, m, b) && lines2 == crate::report::render_all(p);
    assert forall|c: CommitView| p1.contains(c) <==> p2.contains(c) by {
    }
    lemma_ordered_unique(p1, p2);
}

/// A branch compared with itself has nothing pending, whatever the cutoff.
pub proof fn lemma_same_branch_reports_nothing(
    revs: Seq<Revision>,
    cutoff: int,
    lines: Seq<Seq<char>>,
)
    requires
        is_report(revs, revs, cutoff, lines),
    ensures
        lines.len() == 0,
{
    let s = collected(revs, cutoff);
    let p = choose|p: Seq<CommitView>|
        is_pending_order(p, s, s) && lines == crate::report::render_all(p);
    if p.len() > 0 {
        assert(p.contains(p[0]));
        let k = choose|k: int| 0 <= k < s.len() && s[k] == p[0];
        assert(has_identity(s, p[0].identity));
    }
}

} // verus!
