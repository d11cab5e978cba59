//! The summary line of a commit message and the pull-request number it carries.

use vstd::prelude::*;

verus! {

pub open spec fn is_digit(c: char) -> bool {
    '0' <= c && c <= '9'
}

/// The number of ASCII digits in a row in `s` from position `i`, counting
/// no further than `cap`.
pub open spec fn digit_run(s: Seq<char>, i: int, cap: nat) -> nat
    decreases cap,
{
    if cap == 0 || i < 0 || i >= s.len() || !is_digit(s[i]) {
        0
    } else {
        1 + digit_run(s, i + 1, (cap - 1) as nat)
    }
}

/// The number of digits of a marker `(#<digits>)` with one to four digits
/// that starts at position `i` of `s`; 0 when no such marker starts there.
pub open spec fn marker_width(s: Seq<char>, i: int) -> nat {
    let k = digit_run(s, i + 2, 5);
    if 0 <= i && i + 3 + k <= s.len() && s[i] == '(' && s[i + 1] == '#' && 1 <= k <= 4
        && s[i + 2 + k] == ')' {
        k
    } else {
        0
    }
}

/// The decimal value of the `k` characters of `s` from position `i`.
pub open spec fn digits_value(s: Seq<char>, i: int, k: nat) -> int
    decreases k,
{
    if k == 0 {
        0
    } else {
        digits_value(s, i, (k - 1) as nat) * 10 + (s[i + k - 1] as int - '0' as int)
    }
}

/// The number of the first marker at or after position `i`; 0 when there is none.
pub open spec fn identity_from(s: Seq<char>, i: int) -> int
    decreases s.len() - i,
{
    if i >= s.len() {
        0
    } else if marker_width(s, i) > 0 {
        digits_value(s, i + 2, marker_width(s, i))
    } else {
        identity_from(s, i + 1)
    }
}

/// The pull-request number of a summary line: the digits of its first marker
/// `(#<digits>)`, or 0 when it has none.
pub open spec fn identity_of(summary: Seq<char>) -> int {
    identity_from(summary, 0)
}

/// The position of the first line feed in `m` at or after `i`, or the length of `m`.
pub open spec fn newline_from(m: Seq<char>, i: int) -> int
    decreases m.len() - i,
{
    if i >= m.len() {
        m.len() as int
    } else if m[i] == '\n' {
        i
    } else {
        newline_from(m, i + 1)
    }
}

/// The first line of a message: what precedes the first line feed, without a
/// carriage return right before it.
pub open spec fn first_line(m: Seq<char>) -> Seq<char> {
    let j = newline_from(m, 0);
    if 0 < j < m.len() && m[j - 1] == '\r' {
        m.take(j - 1)
    } else {
        m.take(j)
    }
}

proof fn lemma_newline_from_bounds(m: Seq<char>, i: int)
    requires
        0 <= i <= m.len(),
    ensures
        i <= newline_from(m, i) <= m.len(),
    decreases m.len() - i,
{
    if i < m.len() && m[i] != '\n' {
        lemma_newline_from_bounds(m, i + 1);
    }
}

/// The first line of `message`.
pub fn first_line_of(message: &str) -> (r: String)
    ensures
        r@ == first_line(message@),
{
    let n = message.unicode_len();
    let mut j: usize = 0;
    loop
        invariant
            n == message@.len(),
            j <= n,
            newline_from(message@, 0) == newline_from(message@, j as int),
        ensures
            j <= n,
            newline_from(message@, 0) == j,
        decreases n - j,
    {
        if j == n || message.get_char(j) == '\n' {
            break;
        }
        j = j + 1;
    }
    proof {
        lemma_newline_from_bounds(message@, j as int);
    }
    let end = if 0 < j && j < n && message.get_char(j - 1) == '\r' {
        j - 1
    } else {
        j
    };
    let line = message.substring_char(0, end);
    assert(line@ =~= first_line(message@));
    line.to_owned()
}

/// The number of digits of the marker that starts at position `i`, or 0.
fn marker_width_at(s: &str, n: usize, i: usize) -> (k: usize)
    requires
        n == s@.len(),
        i < n,
    ensures
        k == marker_width(s@, i as int),
{
    let ghost t = s@;
    let mut k: usize = 0;
    loop
        invariant
            n == t.len(),
            t == s@,
            i < n,
            k <= 5,
            digit_run(t, i + 2, 5) == k + digit_run(t, i + 2 + k, (5 - k) as nat),
        ensures
            k <= 5,
            digit_run(t, i + 2, 5) == k,
        decreases 5 - k,
    {
        if k == 5 || 2 + k >= n - i {
            break;
        }
        if !('0' <= s.get_char(i + 2 + k) && s.get_char(i + 2 + k) <= '9') {
            break;
        }
        k = k + 1;
    }
    if 3 + k <= n - i && 1 <= k && k <= 4 && s.get_char(i) == '(' && s.get_char(i + 1) == '#'
        && s.get_char(i + 2 + k) == ')' {
        k
    } else {
        0
    }
}

/// The decimal value of the `k` digits of `s` from position `i`.
fn digits_at(s: &str, n: usize, i: usize, k: usize) -> (v: i64)
    requires
        n == s@.len(),
        k <= 4,
        i + k <= n,
        forall|t: int| i <= t < i + k ==> is_digit(#[trigger] s@[t]),
    ensures
        v == digits_value(s@, i as int, k as nat),
        0 <= v <= 9999,
{
    let mut v: i64 = 0;
    let mut t: usize = 0;
    while t < k
        invariant
            n == s@.len(),
            k <= 4,
            i + k <= n,
            t <= k,
            forall|u: int| i <= u < i + k ==> is_digit(#[trigger] s@[u]),
            v == digits_value(s@, i as int, t as nat),
            0 <= v < 10000,
            t <= 3 ==> v < 1000,
            t <= 2 ==> v < 100,
            t <= 1 ==> v < 10,
            t == 0 ==> v == 0,
        decreases k - t,
    {
        let c = s.get_char(i + t);
        assert(is_digit(s@[i + t]));
        let d = (c as u32 - '0' as u32) as i64;
        v = v * 10 + d;
        t = t + 1;
    }
    v
}

/// The pull-request number of a summary line: the digits of its first marker
/// `(#<digits>)` with one to four digits, or 0 when it has none.
pub fn parse_identity(summary: &str) -> (r: i64)
    ensures
        r == identity_of(summary@),
        0 <= r <= 9999,
{
    let n = summary.unicode_len();
    let mut i: usize = 0;
    while i < n
        invariant
            n == summary@.len(),
            i <= n,
            identity_of(summary@) == identity_from(summary@, i as int),
        decreases n - i,
    {
        let k = marker_width_at(summary, n, i);
        if k > 0 {
            proof {
                let s = summary@;
                assert forall|t: int| i + 2 <= t < i + 2 + k implies is_digit(#[trigger] s[t]) by {
                    lemma_digit_run_digits(s, i + 2, 5, t);
                }
            }
            return digits_at(summary, n, i + 2, k);
        }
        i = i + 1;
    }
    0
}

proof fn lemma_digit_run_digits(s: Seq<char>, i: int, cap: nat, t: int)
    requires
        i <= t < i + digit_run(s, i, cap),
    ensures
        0 <= t < s.len(),
        is_digit(s[t]),
    decreases cap,
{
    if t > i {
        lemma_digit_run_digits(s, i + 1, (cap - 1) as nat, t);
    }
}

} // verus!
