//! The message parser: extracts a cleaned summary and a pull-request number
//! from the first line of a commit message.
//!
//! The recognized shape is an arbitrary prefix followed by a marker of the
//! literal form `(#<digits>)`. The last marker in the line wins: the text
//! before it, end-trimmed, becomes the summary, and the digits inside it
//! become the pull-request number. This keeps backport commits right, whose
//! summary embeds the original marker before the backport's own. A line
//! without any marker yields neither field.

use vstd::prelude::*;

use crate::data::{MsgAndPr, MsgAndPrView};
use crate::text::{is_digit, is_digit_char, is_ws, is_ws_char, trimmed_end};

verus! {

/// First index at or after `k` whose character is not a decimal digit, or
/// `s.len()` if the digits run to the end.
pub open spec fn digits_end(s: Seq<char>, k: int) -> int
    decreases s.len() - k,
{
    if k < 0 || k >= s.len() {
        k
    } else if is_digit(s[k]) {
        digits_end(s, k + 1)
    } else {
        k
    }
}

/// Bounds of `digits_end`: everything before it is a digit, and it stops at
/// the first non-digit or at the end.
pub proof fn lemma_digits_end(s: Seq<char>, k: int)
    requires
        0 <= k <= s.len(),
    ensures
        k <= digits_end(s, k) <= s.len(),
        forall|m: int| k <= m < digits_end(s, k) ==> is_digit(s[m]),
        digits_end(s, k) < s.len() ==> !is_digit(s[digits_end(s, k)]),
    decreases s.len() - k,
{
    if k < s.len() && is_digit(s[k]) {
        lemma_digits_end(s, k + 1);
    }
}

/// Skipping over known digits does not move `digits_end`.
pub proof fn lemma_digits_end_step(s: Seq<char>, k: int, m: int)
    requires
        0 <= k <= m <= s.len(),
        forall|j: int| k <= j < m ==> is_digit(s[j]),
    ensures
        digits_end(s, k) == digits_end(s, m),
    decreases m - k,
{
    if k < m {
        lemma_digits_end_step(s, k + 1, m);
    }
}

/// A pull-request marker `(#<digits>)` stands at index `i` of `s`: an opening
/// parenthesis, a number sign, at least one digit, and a closing parenthesis
/// right after the digit run.
pub open spec fn marker_at(s: Seq<char>, i: int) -> bool {
    &&& 0 <= i
    &&& i + 2 < s.len()
    &&& s[i] == '('
    &&& s[i + 1] == '#'
    &&& is_digit(s[i + 2])
    &&& digits_end(s, i + 2) < s.len()
    &&& s[digits_end(s, i + 2)] == ')'
}

/// The digits inside the marker at index `i`.
pub open spec fn marker_digits(s: Seq<char>, i: int) -> Seq<char> {
    s.subrange(i + 2, digits_end(s, i + 2))
}

/// The largest index `j <= i` where a marker stands, or `-1` if there is
/// none.
pub open spec fn last_marker_from(s: Seq<char>, i: int) -> int
    decreases i + 1,
{
    if i < 0 {
        -1
    } else if marker_at(s, i) {
        i
    } else {
        last_marker_from(s, i - 1)
    }
}

/// The largest index of `s` where a marker stands, or `-1` if there is none.
pub open spec fn last_marker(s: Seq<char>) -> int {
    last_marker_from(s, s.len() - 1)
}

/// `s` holds at least one pull-request marker.
pub open spec fn has_marker(s: Seq<char>) -> bool {
    last_marker(s) >= 0
}

/// `last_marker_from` is characterized by its bounds: it names a marker, and
/// no marker stands after it (up to `i`).
pub proof fn lemma_last_marker_from(s: Seq<char>, i: int)
    requires
        i < s.len(),
    ensures
        last_marker_from(s, i) >= 0 ==> last_marker_from(s, i) <= i && marker_at(
            s,
            last_marker_from(s, i),
        ) && (forall|j: int| last_marker_from(s, i) < j <= i ==> !marker_at(s, j)),
        last_marker_from(s, i) < 0 ==> forall|j: int| 0 <= j <= i ==> !marker_at(s, j),
    decreases i + 1,
{
    if i >= 0 && !marker_at(s, i) {
        lemma_last_marker_from(s, i - 1);
    }
}

/// What parsing a line yields, over character sequences.
pub open spec fn spec_parse(s: Seq<char>) -> MsgAndPrView {
    if has_marker(s) {
        MsgAndPrView {
            message: Some(trimmed_end(s.subrange(0, last_marker(s)))),
            pr_number: Some(marker_digits(s, last_marker(s))),
        }
    } else {
        MsgAndPrView { message: None, pr_number: None }
    }
}

/// Decides whether a marker stands at index `j` of `s`; on success returns
/// the index of the closing parenthesis, which ends the digit run.
fn marker_check(s: &str, n: usize, j: usize) -> (r: Option<usize>)
    requires
        n == s@.len(),
        j < n,
    ensures
        match r {
            Some(k) => marker_at(s@, j as int) && k == digits_end(s@, j + 2),
            None => !marker_at(s@, j as int),
        },
{
    if s.get_char(j) != '(' {
        return None;
    }
    if j + 1 >= n {
        return None;
    }
    if s.get_char(j + 1) != '#' {
        return None;
    }
    if j + 2 >= n {
        return None;
    }
    if !is_digit_char(s.get_char(j + 2)) {
        return None;
    }
    let mut k: usize = j + 3;
    while k < n && is_digit_char(s.get_char(k))
        invariant
            n == s@.len(),
            j + 3 <= k <= n,
            forall|m: int| j + 2 <= m < k ==> is_digit(s@[m]),
        decreases n - k,
    {
        k = k + 1;
    }
    proof {
        lemma_digits_end_step(s@, j + 2, k as int);
        assert(digits_end(s@, k as int) == k);
    }
    if k < n && s.get_char(k) == ')' {
        Some(k)
    } else {
        None
    }
}

/// Parses the first line of a commit message: the summary before the last
/// pull-request marker, end-trimmed, and the digits of that marker; or
/// neither, if no marker is present.
pub fn parse_msg_and_pr(input: &str) -> (r: MsgAndPr)
    ensures
        r@ == spec_parse(input@),
{
    let ghost s = input@;
    let n = input.unicode_len();
    let mut i: usize = n;
    loop
        invariant
            n == s.len(),
            i <= n,
            s == input@,
            forall|j: int| i <= j < n ==> !marker_at(s, j),
        decreases i,
    {
        if i == 0 {
            proof {
                if n > 0 {
                    lemma_last_marker_from(s, n - 1);
                }
                assert(!has_marker(s));
            }
            return MsgAndPr { message: None, pr_number: None };
        }
        let j = i - 1;
        match marker_check(input, n, j) {
            Some(k) => {
                proof {
                    lemma_last_marker_from(s, n - 1);
                    assert(last_marker(s) == j);
                    lemma_digits_end(s, j + 2);
                }
                let pr = input.substring_char(j + 2, k).to_owned();
                let mut t: usize = j;
                while t > 0 && is_ws_char(input.get_char(t - 1))
                    invariant
                        t <= j,
                        j < n,
                        n == s.len(),
                        s == input@,
                        trimmed_end(s.subrange(0, j as int)) == trimmed_end(
                            s.subrange(0, t as int),
                        ),
                    decreases t,
                {
                    proof {
                        assert(s.subrange(0, t as int).last() == s[t - 1]);
                        assert(s.subrange(0, t as int).drop_last() =~= s.subrange(0, t - 1));
                    }
                    t = t - 1;
                }
                proof {
                    if t > 0 {
                        assert(s.subrange(0, t as int).last() == s[t - 1]);
                        assert(trimmed_end(s.subrange(0, t as int)) == s.subrange(0, t as int));
                    } else {
                        assert(s.subrange(0, 0).len() == 0);
                        assert(trimmed_end(s.subrange(0, 0)) == s.subrange(0, 0));
                    }
                }
                let msg = input.substring_char(0, t).to_owned();
                return MsgAndPr { message: Some(msg), pr_number: Some(pr) };
            },
            None => {
                i = j;
            },
        }
    }
}

/// `trimmed_end` yields a prefix of its argument.
pub proof fn lemma_trimmed_end_prefix(s: Seq<char>)
    ensures
        trimmed_end(s).len() <= s.len(),
        trimmed_end(s) == s.subrange(0, trimmed_end(s).len() as int),
    decreases s.len(),
{
    if s.len() > 0 && is_ws(s.last()) {
        lemma_trimmed_end_prefix(s.drop_last());
        assert(s.drop_last() =~= s.subrange(0, s.len() - 1));
        assert(s.drop_last().subrange(0, trimmed_end(s).len() as int) =~= s.subrange(
            0,
            trimmed_end(s).len() as int,
        ));
    } else {
        assert(s =~= s.subrange(0, s.len() as int));
    }
}

/// A marker found in a prefix of `s` also stands in `s` itself: its digit
/// run ends at the same closing parenthesis.
pub proof fn lemma_marker_in_prefix(s: Seq<char>, len: int, j: int)
    requires
        0 <= len <= s.len(),
        marker_at(s.subrange(0, len), j),
    ensures
        marker_at(s, j),
{
    let p = s.subrange(0, len);
    let d = digits_end(p, j + 2);
    lemma_digits_end(p, j + 2);
    assert forall|m: int| j + 2 <= m < d implies is_digit(s[m]) by {
        assert(p[m] == s[m]);
    }
    lemma_digits_end_step(s, j + 2, d);
    assert(digits_end(s, d) == d) by {
        assert(s[d] == p[d]);
        assert(!is_digit(s[d]));
    }
    assert(digits_end(s, j + 2) == d);
}

/// Parser idempotence: a line that holds exactly one pull-request marker
/// yields a summary with no marker at all, so parsing that summary again
/// extracts nothing — the stripped marker never survives in the summary.
pub proof fn lemma_parse_idempotent(s: Seq<char>)
    requires
        has_marker(s),
        forall|j: int| marker_at(s, j) ==> j == last_marker(s),
    ensures
        spec_parse(s).message is Some,
        !has_marker(spec_parse(s).message->0),
        spec_parse(spec_parse(s).message->0) == (MsgAndPrView {
            message: None,
            pr_number: None,
        }),
{
    let i = last_marker(s);
    lemma_last_marker_from(s, s.len() - 1);
    let p = s.subrange(0, i);
    let m = trimmed_end(p);
    lemma_trimmed_end_prefix(p);
    assert(p.subrange(0, m.len() as int) =~= s.subrange(0, m.len() as int));
    if has_marker(m) {
        let r = last_marker(m);
        lemma_last_marker_from(m, m.len() - 1);
        assert(marker_at(m, r));
        lemma_marker_in_prefix(s, m.len() as int, r);
        assert(r + 2 < m.len() <= i);
        assert(false);
    }
}

} // verus!
