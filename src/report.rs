//! The difference reporter: mainline commits missing from the maintenance
//! branch, in chronological order.

use vstd::prelude::*;

use crate::collect::{any_malformed, collect, collected, has_identity, CommitSet};
use crate::commit::{rendered, texts_of, views_of, BackportError, Commit, CommitView, Revision};

verus! {

/// The order of the report: by timestamp, then by pull-request number.
pub open spec fn precedes(a: CommitView, b: CommitView) -> bool {
    a.timestamp < b.timestamp || (a.timestamp == b.timestamp && a.identity < b.identity)
}

pub open spec fn strictly_ordered(p: Seq<CommitView>) -> bool {
    forall|i: int, j: int| 0 <= i < j < p.len() ==> precedes(p[i], p[j])
}

/// A mainline record whose pull-request number the maintenance branch lacks.
pub open spec fn is_pending(c: CommitView, main: Seq<CommitView>, backport: Seq<CommitView>) -> bool {
    main.contains(c) && !has_identity(backport, c.identity)
}

/// `p` holds exactly the pending records, in report order.
pub open spec fn is_pending_order(
    p: Seq<CommitView>,
    main: Seq<CommitView>,
    backport: Seq<CommitView>,
) -> bool {
    &&& strictly_ordered(p)
    &&& forall|c: CommitView| p.contains(c) <==> is_pending(c, main, backport)
}

pub open spec fn render_all(p: Seq<CommitView>) -> Seq<Seq<char>> {
    p.map_values(|c: CommitView| rendered(c))
}

/// `lines` are the rendered pending records of two collected sets, in report order.
pub open spec fn is_rendering(
    lines: Seq<Seq<char>>,
    main: Seq<CommitView>,
    backport: Seq<CommitView>,
) -> bool {
    exists|p: Seq<CommitView>| is_pending_order(p, main, backport) && lines == render_all(p)
}

/// `lines` are the report on two walks with one cutoff.
pub open spec fn is_report(
    main: Seq<Revision>,
    backport: Seq<Revision>,
    cutoff: int,
    lines: Seq<Seq<char>>,
) -> bool {
    is_rendering(lines, collected(main, cutoff), collected(backport, cutoff))
}

fn precedes_exec(a: &Commit, b: &Commit) -> (r: bool)
    ensures
        r == precedes(a@, b@),
{
    a.timestamp < b.timestamp || (a.timestamp == b.timestamp && a.identity < b.identity)
}

/// Puts `c` into its place in `out`, which is kept in report order.
fn insert_in_order(out: &mut Vec<Commit>, c: Commit)
    requires
        strictly_ordered(views_of(old(out)@)),
        forall|i: int| 0 <= i < old(out)@.len() ==> old(out)@[i].identity != c.identity,
    ensures
        strictly_ordered(views_of(final(out)@)),
        forall|x: CommitView|
            #[trigger] views_of(final(out)@).contains(x) <==> (views_of(old(out)@).contains(x) || x == c@),
{
    let ghost before = views_of(old(out)@);
    let ghost cv = c@;
    let mut p: usize = 0;
    loop
        invariant
            p <= out.len(),
            views_of(out@) == before,
            cv == c@,
            forall|i: int| 0 <= i < out@.len() ==> out@[i].identity != cv.identity,
            forall|q: int| 0 <= q < p ==> precedes(#[trigger] before[q], cv),
        ensures
            p <= out.len(),
            forall|q: int| 0 <= q < p ==> precedes(#[trigger] before[q], cv),
            p < out.len() ==> precedes(cv, before[p as int]),
        decreases out.len() - p,
    {
        if p == out.len() {
            break;
        }
        assert(before[p as int] == out@[p as int]@);
        if precedes_exec(&c, &out[p]) {
            break;
        }
        assert(out@[p as int].identity != cv.identity);
        p = p + 1;
    }
    out.insert(p, c);
    proof {
        before.insert_ensures(p as int, cv);
        let after = views_of(out@);
        assert(after =~= before.insert(p as int, cv));
        assert forall|i: int, j: int| 0 <= i < j < after.len() implies precedes(
            after[i],
            after[j],
        ) by {
            if j < p {
            } else if j == p {
            } else if i < p {
                assert(precedes(before[i], cv));
                assert(precedes(cv, before[p as int]));
                if p < j - 1 {
                    assert(precedes(before[p as int], before[j - 1]));
                }
            } else if i == p {
                if p < j - 1 {
                    assert(precedes(before[p as int], before[j - 1]));
                }
            } else {
                assert(precedes(before[i - 1], before[j - 1]));
            }
        }
        assert forall|x: CommitView| #[trigger] after.contains(x) <==> (before.contains(x) || x == cv) by {
            if after.contains(x) {
                let k = choose|k: int| 0 <= k < after.len() && after[k] == x;
                if k < p {
                    assert(before[k] == x);
                } else if k > p {
                    assert(before[k - 1] == x);
                }
            }
            if before.contains(x) {
                let k = choose|k: int| 0 <= k < before.len() && before[k] == x;
                if k < p {
                    assert(after[k] == x);
                } else {
                    assert(after[k + 1] == x);
                }
            }
            if x == cv {
                assert(after[p as int] == x);
            }
        }
    }
}

/// The commits of `main` whose pull-request number `backport` lacks, ordered
/// by timestamp and then by pull-request number.
pub fn pending(main: &CommitSet, backport: &CommitSet) -> (r: Vec<Commit>)
    requires
        main.wf(),
        backport.wf(),
    ensures
        is_pending_order(views_of(r@), main@, backport@),
{
    let commits = main.commits();
    let ghost m = main@;
    proof {
        main.lemma_distinct();
    }
    let mut out: Vec<Commit> = Vec::new();
    let mut idx: usize = 0;
    while idx < commits.len()
        invariant
            views_of(commits@) == m,
            m == main@,
            backport.wf(),
            idx <= commits.len(),
            forall|i: int, j: int| 0 <= i < j < m.len() ==> m[i].identity != m[j].identity,
            strictly_ordered(views_of(out@)),
            forall|x: CommitView|
                #[trigger] views_of(out@).contains(x) <==> (m.take(idx as int).contains(x)
                    && !has_identity(backport@, x.identity)),
        decreases commits.len() - idx,
    {
        let ghost ov = views_of(out@);
        let ghost cur = m[idx as int];
        assert(commits@[idx as int]@ == cur);
        if !backport.contains_identity(commits[idx].identity) {
            proof {
                assert forall|i: int| 0 <= i < out@.len() implies out@[i].identity
                    != commits@[idx as int].identity by {
                    assert(ov[i] == out@[i]@);
                    assert(ov.contains(ov[i]));
                    let t = m.take(idx as int);
                    let k = choose|k: int| 0 <= k < t.len() && t[k] == ov[i];
                    assert(m[k] == ov[i]);
                }
            }
            insert_in_order(&mut out, commits[idx].duplicate());
        }
        proof {
            let nv = views_of(out@);
            assert forall|x: CommitView| #[trigger] nv.contains(x) <==> (m.take(idx + 1).contains(x)
                && !has_identity(backport@, x.identity)) by {
                if m.take(idx + 1).contains(x) {
                    let t = m.take(idx + 1);
                    let k = choose|k: int| 0 <= k < t.len() && t[k] == x;
                    if k < idx {
                        assert(m.take(idx as int)[k] == x);
                    }
                }
                if m.take(idx as int).contains(x) {
                    let t = m.take(idx as int);
                    let k = choose|k: int| 0 <= k < t.len() && t[k] == x;
                    assert(m.take(idx + 1)[k] == x);
                }
                if x == cur {
                    assert(m.take(idx + 1)[idx as int] == x);
                }
            }
        }
        idx = idx + 1;
    }
    assert(m.take(commits.len() as int) =~= m);
    out
}

/// The printed lines of `commits`, in their order.
pub fn render_lines(commits: &Vec<Commit>) -> (r: Vec<String>)
    ensures
        texts_of(r@) == render_all(views_of(commits@)),
{
    let mut out: Vec<String> = Vec::new();
    let mut i: usize = 0;
    while i < commits.len()
        invariant
            i <= commits.len(),
            out@.len() == i,
            forall|k: int| 0 <= k < i ==> out@[k]@ == rendered(#[trigger] commits@[k]@),
        decreases commits.len() - i,
    {
        out.push(commits[i].render());
        i = i + 1;
    }
    assert(texts_of(out@) =~= render_all(views_of(commits@)));
    out
}

/// The printed report of two collected sets.
pub fn pending_lines(main: &CommitSet, backport: &CommitSet) -> (r: Vec<String>)
    requires
        main.wf(),
        backport.wf(),
    ensures
        is_rendering(texts_of(r@), main@, backport@),
{
    let p = pending(main, backport);
    let r = render_lines(&p);
    assert(is_pending_order(views_of(p@), main@, backport@));
    r
}

/// The report on a walk of the mainline and one of the maintenance branch,
/// each given as the revisions in the order in which the walk meets them.
/// Fails with `MalformedCommit` when a revision of either has no message.
pub fn report(main: &Vec<Revision>, backport: &Vec<Revision>, cutoff: i64) -> (r: Result<
    Vec<String>,
    BackportError,
>)
    ensures
        match r {
            Ok(lines) => {
                &&& !any_malformed(main@)
                &&& !any_malformed(backport@)
                &&& is_report(main@, backport@, cutoff as int, texts_of(lines@))
            },
            Err(e) => (any_malformed(main@) || any_malformed(backport@)) && e
                == BackportError::MalformedCommit,
        },
{
    let main_set = match collect(main, cutoff) {
        Ok(s) => s,
        Err(e) => {
            return Err(e);
        },
    };
    let backport_set = match collect(backport, cutoff) {
        Ok(s) => s,
        Err(e) => {
            return Err(e);
        },
    };
    Ok(pending_lines(&main_set, &backport_set))
}

} // verus!
