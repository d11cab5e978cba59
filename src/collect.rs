//! The history collector: the distinct commits of one branch at or after a cutoff.

use vstd::prelude::*;

use rustc_hash::{FxBuildHasher, FxHashSet};

use crate::commit::{is_malformed, record_of, views_of, BackportError, Commit, CommitView, Revision};

verus! {

#[verifier::external_type_specification]
#[verifier::external_body]
pub struct ExFxBuildHasher(FxBuildHasher);

/// Relies on `HashSet::default` with rustc_hash's hasher: a new set is empty.
#[verifier::external_body]
fn empty_id_set() -> (r: FxHashSet<i64>)
    ensures
        r@ == Set::<i64>::empty(),
{
    FxHashSet::default()
}

/// Relies on `HashSet::insert` with rustc_hash's hasher: the key is added, and
/// the result tells whether it was absent before.
#[verifier::external_body]
fn insert_id(set: &mut FxHashSet<i64>, id: i64) -> (r: bool)
    ensures
        final(set)@ == old(set)@.insert(id),
        r == !old(set)@.contains(id),
{
    set.insert(id)
}

/// Relies on `HashSet::contains` with rustc_hash's hasher: membership of the key.
#[verifier::external_body]
fn contains_id(set: &FxHashSet<i64>, id: i64) -> (r: bool)
    ensures
        r == set@.contains(id),
{
    set.contains(&id)
}

/// Whether some record of `s` carries the pull-request number `id`.
pub open spec fn has_identity(s: Seq<CommitView>, id: int) -> bool {
    exists|i: int| 0 <= i < s.len() && #[trigger] s[i].identity == id
}

/// The records of `s` after one more revision is met: its record is added when
/// it is at or after `cutoff` and its number is not yet present.
pub open spec fn step(s: Seq<CommitView>, rev: Revision, cutoff: int) -> Seq<CommitView> {
    let c = record_of(rev);
    if c.timestamp >= cutoff && !has_identity(s, c.identity) {
        s.push(c)
    } else {
        s
    }
}

/// The records that a walk meeting `revs` in order collects.
pub open spec fn collected(revs: Seq<Revision>, cutoff: int) -> Seq<CommitView>
    decreases revs.len(),
{
    if revs.len() == 0 {
        Seq::empty()
    } else {
        step(collected(revs.drop_last(), cutoff), revs.last(), cutoff)
    }
}

/// Whether some revision of `revs` cannot be classified.
pub open spec fn any_malformed(revs: Seq<Revision>) -> bool {
    exists|i: int| 0 <= i < revs.len() && is_malformed(#[trigger] revs[i])
}

/// The commits collected from one branch, each pull-request number once, in
/// the order in which they were first met.
pub struct CommitSet {
    seen: FxHashSet<i64>,
    commits: Vec<Commit>,
}

impl View for CommitSet {
    type V = Seq<CommitView>;

    closed spec fn view(&self) -> Seq<CommitView> {
        views_of(self.commits@)
    }
}

impl CommitSet {
    pub closed spec fn wf(&self) -> bool {
        &&& forall|id: i64| self.seen@.contains(id) <==> has_identity(self@, id as int)
        &&& forall|i: int, j: int|
            0 <= i < j < self@.len() ==> self@[i].identity != self@[j].identity
    }

    /// No two commits held share a pull-request number.
    pub proof fn lemma_distinct(&self)
        requires
            self.wf(),
        ensures
            forall|i: int, j: int|
                0 <= i < j < self@.len() ==> self@[i].identity != self@[j].identity,
    {
    }

    /// An empty set.
    pub fn new() -> (r: CommitSet)
        ensures
            r.wf(),
            r@ == Seq::<CommitView>::empty(),
    {
        let r = CommitSet { seen: empty_id_set(), commits: Vec::new() };
        assert(r@ =~= Seq::<CommitView>::empty());
        r
    }

    /// The number of commits held.
    pub fn len(&self) -> (r: usize)
        ensures
            r == self@.len(),
    {
        self.commits.len()
    }

    /// The commits held, in the order in which they were first met.
    pub fn commits(&self) -> (r: &Vec<Commit>)
        ensures
            views_of(r@) == self@,
    {
        &self.commits
    }

    /// Whether a commit with the pull-request number `id` is held.
    pub fn contains_identity(&self, id: i64) -> (r: bool)
        requires
            self.wf(),
        ensures
            r == has_identity(self@, id as int),
    {
        contains_id(&self.seen, id)
    }

    /// Takes in one revision met on the walk. A revision without a message
    /// fails with `MalformedCommit` and leaves the set as it was.
    pub fn observe(&mut self, rev: &Revision, cutoff: i64) -> (r: Result<(), BackportError>)
        requires
            old(self).wf(),
        ensures
            final(self).wf(),
            match r {
                Ok(()) => !is_malformed(*rev) && final(self)@ == step(
                    old(self)@,
                    *rev,
                    cutoff as int,
                ),
                Err(e) => {
                    &&& is_malformed(*rev)
                    &&& e == BackportError::MalformedCommit
                    &&& final(self)@ == old(self)@
                },
            },
    {
        let commit = match Commit::from_revision(rev) {
            Ok(c) => c,
            Err(e) => {
                return Err(e);
            },
        };
        if commit.timestamp >= cutoff {
            let ghost before = self@;
            let id = commit.identity;
            if insert_id(&mut self.seen, id) {
                self.commits.push(commit);
                proof {
                    assert(self@ =~= before.push(record_of(*rev)));
                    assert forall|i: int, j: int|
                        0 <= i < j < self@.len() implies self@[i].identity
                        != self@[j].identity by {
                        assert(self@[i] == before[i]);
                        if j == before.len() {
                            if self@[i].identity == id {
                                assert(has_identity(before, id as int));
                            }
                        } else {
                            assert(self@[j] == before[j]);
                        }
                    }
                    assert forall|k: i64| self.seen@.contains(k) <==> has_identity(
                        self@,
                        k as int,
                    ) by {
                        if has_identity(self@, k as int) {
                            let i = choose|i: int|
                                0 <= i < self@.len() && #[trigger] self@[i].identity == k as int;
                            if i < before.len() {
                                assert(before[i].identity == k);
                            }
                        }
                        if has_identity(before, k as int) {
                            let i = choose|i: int|
                                0 <= i < before.len() && #[trigger] before[i].identity == k as int;
                            assert(self@[i].identity == k);
                        }
                        if k == id {
                            assert(self@[before.len() as int].identity == k);
                        }
                    }
                }
            } else {
                assert(has_identity(before, id as int));
            }
        }
        Ok(())
    }
}

/// Collects the commits of one walk: `revs` in the order in which the walk
/// meets them. Fails with `MalformedCommit` when any revision has no message.
pub fn collect(revs: &Vec<Revision>, cutoff: i64) -> (r: Result<CommitSet, BackportError>)
    ensures
        match r {
            Ok(s) => !any_malformed(revs@) && s.wf() && s@ == collected(revs@, cutoff as int),
            Err(e) => any_malformed(revs@) && e == BackportError::MalformedCommit,
        },
{
    let mut set = CommitSet::new();
    let mut i: usize = 0;
    while i < revs.len()
        invariant
            i <= revs.len(),
            set.wf(),
            set@ == collected(revs@.take(i as int), cutoff as int),
            !any_malformed(revs@.take(i as int)),
        decreases revs.len() - i,
    {
        let ghost before = revs@.take(i as int);
        match set.observe(&revs[i], cutoff) {
            Ok(()) => {},
            Err(e) => {
                assert(is_malformed(revs@[i as int]));
                return Err(e);
            },
        }
        proof {
            let after = revs@.take(i + 1);
            assert(after.drop_last() =~= before);
            assert(after.last() == revs@[i as int]);
            assert forall|j: int| 0 <= j < after.len() implies !is_malformed(#[trigger] after[j]) by {
                if j < i {
                    assert(after[j] == before[j]);
                }
            }
        }
        i = i + 1;
    }
    assert(revs@.take(revs.len() as int) =~= revs@);
    Ok(set)
}

} // verus!
