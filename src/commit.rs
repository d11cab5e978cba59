//! Commit records, the revisions they are read from, and their rendering.

use vstd::prelude::*;

use crate::identity::{first_line, first_line_of, identity_of, parse_identity};

verus! {

/// Why a run fails.
#[derive(Debug, Clone, Copy, PartialEq, Eq, Structural)]
pub enum BackportError {
    /// The repository cannot be opened, or a revision of it cannot be loaded.
    RepositoryAccess,
    /// A named branch does not resolve to a tip revision.
    BranchNotFound,
    /// A commit carries no message.
    MalformedCommit,
    /// The cutoff text is not a date and time.
    InvalidCutoff,
}

/// One revision met on a walk of a branch's history: its message, absent when
/// the repository holds none, and its author time in seconds since the epoch.
pub struct Revision {
    pub message: Option<String>,
    pub seconds: i64,
}

/// A commit as classified: its summary line, the pull-request number found in
/// it (0 when there is none), and its author time in seconds since the epoch.
pub struct Commit {
    pub summary: String,
    pub identity: i64,
    pub timestamp: i64,
}

pub ghost struct CommitView {
    pub summary: Seq<char>,
    pub identity: int,
    pub timestamp: int,
}

impl View for Commit {
    type V = CommitView;

    open spec fn view(&self) -> CommitView {
        CommitView {
            summary: self.summary@,
            identity: self.identity as int,
            timestamp: self.timestamp as int,
        }
    }
}

/// Two commits are the same change when they carry the same pull-request number.
impl PartialEq for Commit {
    fn eq(&self, other: &Commit) -> (r: bool) {
        self.identity == other.identity
    }
}

impl vstd::std_specs::cmp::PartialEqSpecImpl for Commit {
    open spec fn obeys_eq_spec() -> bool {
        true
    }

    open spec fn eq_spec(&self, other: &Commit) -> bool {
        self.identity == other.identity
    }
}

impl Eq for Commit {

}

/// Commits compare by their pull-request numbers alone.
impl PartialOrd for Commit {
    fn partial_cmp(&self, other: &Commit) -> (r: Option<core::cmp::Ordering>) {
        if self.identity < other.identity {
            Some(core::cmp::Ordering::Less)
        } else if self.identity > other.identity {
            Some(core::cmp::Ordering::Greater)
        } else {
            Some(core::cmp::Ordering::Equal)
        }
    }
}

impl vstd::std_specs::cmp::PartialOrdSpecImpl for Commit {
    open spec fn obeys_partial_cmp_spec() -> bool {
        true
    }

    open spec fn partial_cmp_spec(&self, other: &Commit) -> Option<core::cmp::Ordering> {
        if self.identity < other.identity {
            Some(core::cmp::Ordering::Less)
        } else if self.identity > other.identity {
            Some(core::cmp::Ordering::Greater)
        } else {
            Some(core::cmp::Ordering::Equal)
        }
    }
}

/// The records of a sequence of commits.
pub open spec fn views_of(s: Seq<Commit>) -> Seq<CommitView> {
    s.map_values(|c: Commit| c@)
}

/// The texts of a sequence of strings.
pub open spec fn texts_of(s: Seq<String>) -> Seq<Seq<char>> {
    s.map_values(|t: String| t@)
}

/// A revision whose message is absent or empty cannot be classified.
pub open spec fn is_malformed(rev: Revision) -> bool {
    rev.message is None || rev.message->0@.len() == 0
}

/// The record that a well-formed revision gives.
pub open spec fn record_of(rev: Revision) -> CommitView {
    let line = first_line(rev.message->0@);
    CommitView { summary: line, identity: identity_of(line), timestamp: rev.seconds as int }
}

pub open spec fn digit_char(d: nat) -> char {
    ('0' as int + d) as char
}

/// The decimal digits of `n`.
pub open spec fn nat_decimal(n: nat) -> Seq<char>
    decreases n,
{
    if n < 10 {
        seq![digit_char(n)]
    } else {
        nat_decimal(n / 10).push(digit_char(n % 10))
    }
}

/// `n` in decimal, with a leading minus sign when it is negative.
pub open spec fn decimal(n: int) -> Seq<char> {
    if n < 0 {
        seq!['-'] + nat_decimal((-n) as nat)
    } else {
        nat_decimal(n as nat)
    }
}

/// How a record is printed: `<summary> (<timestamp>)`.
pub open spec fn rendered(c: CommitView) -> Seq<char> {
    c.summary + seq![' ', '('] + decimal(c.timestamp) + seq![')']
}

fn digit_text(d: u64) -> (r: &'static str)
    requires
        d < 10,
    ensures
        r@ == seq![digit_char(d as nat)],
{
    proof {
        reveal_strlit("0");
        reveal_strlit("1");
        reveal_strlit("2");
        reveal_strlit("3");
        reveal_strlit("4");
        reveal_strlit("5");
        reveal_strlit("6");
        reveal_strlit("7");
        reveal_strlit("8");
        reveal_strlit("9");
    }
    let r = if d == 0 {
        "0"
    } else if d == 1 {
        "1"
    } else if d == 2 {
        "2"
    } else if d == 3 {
        "3"
    } else if d == 4 {
        "4"
    } else if d == 5 {
        "5"
    } else if d == 6 {
        "6"
    } else if d == 7 {
        "7"
    } else if d == 8 {
        "8"
    } else {
        "9"
    };
    assert(r@ =~= seq![digit_char(d as nat)]);
    r
}

fn push_decimal(n: u64, out: &mut String)
    ensures
        final(out)@ == old(out)@ + nat_decimal(n as nat),
    decreases n,
{
    if n >= 10 {
        push_decimal(n / 10, out);
    }
    out.append(digit_text(n % 10));
    assert(final(out)@ =~= old(out)@ + nat_decimal(n as nat));
}

/// `n` in decimal, with a leading minus sign when it is negative.
pub fn decimal_text(n: i64) -> (r: String)
    ensures
        r@ == decimal(n as int),
{
    let mut out = String::new();
    if n < 0 {
        proof {
            reveal_strlit("-");
        }
        out.append("-");
        let below: i64 = 0 - (n + 1);
        let magnitude: u64 = below as u64 + 1;
        push_decimal(magnitude, &mut out);
        assert(out@ =~= decimal(n as int));
    } else {
        push_decimal(n as u64, &mut out);
    }
    out
}

impl Commit {
    /// The record of a revision, or `MalformedCommit` when its message is
    /// absent or empty.
    pub fn from_revision(rev: &Revision) -> (r: Result<Commit, BackportError>)
        ensures
            match r {
                Ok(c) => !is_malformed(*rev) && c@ == record_of(*rev),
                Err(e) => is_malformed(*rev) && e == BackportError::MalformedCommit,
            },
    {
        match &rev.message {
            None => Err(BackportError::MalformedCommit),
            Some(m) => {
                if m.as_str().unicode_len() == 0 {
                    Err(BackportError::MalformedCommit)
                } else {
                    let summary = first_line_of(m.as_str());
                    let identity = parse_identity(summary.as_str());
                    Ok(Commit { summary, identity, timestamp: rev.seconds })
                }
            },
        }
    }

    /// A copy of this commit.
    pub fn duplicate(&self) -> (r: Commit)
        ensures
            r@ == self@,
    {
        Commit { summary: self.summary.clone(), identity: self.identity, timestamp: self.timestamp }
    }

    /// The line printed for this commit: `<summary> (<timestamp>)`.
    pub fn render(&self) -> (r: String)
        ensures
            r@ == rendered(self@),
    {
        let mut out = self.summary.clone();
        proof {
            reveal_strlit(" (");
            reveal_strlit(")");
        }
        out.append(" (");
        out.append(decimal_text(self.timestamp).as_str());
        out.append(")");
        assert(out@ =~= rendered(self@));
        out
    }
}

} // verus!
