//! What the answers of `git` say about a worktree and its branch.
use vstd::prelude::*;

use crate::text::{
    chars_of, contains, contains_chars, lines, lines_chars, same_chars, trim, trim_chars, views,
};
use crate::worktree::Worktree;

verus! {

// ---------------------------------------------------------------------------
// Uncommitted changes
// ---------------------------------------------------------------------------

/// Whether `git status --porcelain` reports changes: it succeeded and printed
/// something. A failed status counts as clean.
pub fn status_shows_changes(succeeded: bool, stdout: &Vec<u8>) -> (dirty: bool)
    ensures
        dirty == (succeeded && stdout@.len() > 0),
{
    succeeded && stdout.len() > 0
}

// ---------------------------------------------------------------------------
// Upstream gone
// ---------------------------------------------------------------------------

/// The marker that `git branch -vv` prints for a branch whose upstream is gone.
pub open spec fn gone_marker() -> Seq<char> {
    ": gone]"@
}

/// Some line of `listing` mentions `branch` and carries the gone marker.
pub open spec fn listing_says_gone(listing: Seq<char>, branch: Seq<char>) -> bool {
    exists|i: int|
        0 <= i < lines(listing).len() && contains(#[trigger] lines(listing)[i], branch) && contains(
            lines(listing)[i],
            gone_marker(),
        )
}

/// The upstream of a branch counts as gone exactly when some line of the
/// listing, wherever it stands and whatever the other lines say, contains
/// both the branch name and `: gone]`.
pub proof fn lemma_gone_exactly_when_some_line_says_so(listing: Seq<char>, branch: Seq<char>)
    ensures
        listing_says_gone(listing, branch) <==> exists|i: int|
            0 <= i < lines(listing).len() && contains(#[trigger] lines(listing)[i], branch)
                && contains(lines(listing)[i], ": gone]"@),
        forall|i: int|
            0 <= i < lines(listing).len() && contains(#[trigger] lines(listing)[i], branch)
                && contains(lines(listing)[i], ": gone]"@) ==> listing_says_gone(listing, branch),
{
}

/// Whether the upstream of `branch` is gone, read from the output of
/// `git branch -vv`: some line contains both the branch name and `: gone]`.
pub fn remote_gone(listing: &str, branch: &str) -> (gone: bool)
    ensures
        gone == listing_says_gone(listing@, branch@),
        gone <==> exists|i: int|
            0 <= i < lines(listing@).len() && contains(#[trigger] lines(listing@)[i], branch@)
                && contains(lines(listing@)[i], ": gone]"@),
{
    let text = chars_of(listing);
    let name = chars_of(branch);
    let marker = chars_of(": gone]");
    let ls = lines_chars(&text);
    let mut i: usize = 0;
    while i < ls.len()
        invariant
            i <= ls.len(),
            views(ls@) == lines(listing@),
            name@ == branch@,
            marker@ == gone_marker(),
            forall|k: int|
                0 <= k < i ==> !(contains(#[trigger] lines(listing@)[k], branch@) && contains(
                    lines(listing@)[k],
                    gone_marker(),
                )),
        decreases ls.len() - i,
    {
        assert(ls@[i as int]@ == lines(listing@)[i as int]);
        if contains_chars(&ls[i], &name) && contains_chars(&ls[i], &marker) {
            return true;
        }
        i = i + 1;
    }
    false
}

// ---------------------------------------------------------------------------
// Merged into main
// ---------------------------------------------------------------------------

/// Whether a branch still points where `main` does, from the outputs of
/// `git rev-parse <branch>` and `git rev-parse main`: the two agree once
/// surrounding whitespace is removed. Such a branch is untouched, not merged.
pub fn branch_untouched(branch_rev: &str, main_rev: &str) -> (same: bool)
    ensures
        same == (trim(branch_rev@) == trim(main_rev@)),
{
    let a = trim_chars(&chars_of(branch_rev));
    let b = trim_chars(&chars_of(main_rev));
    same_chars(&a, &b)
}

/// How to tell whether a branch is merged into `main`.
pub enum MergeCheck {
    /// The branch still points where `main` does: it is untouched, not merged.
    NotMerged,
    /// The branch is merged exactly when `git merge-base --is-ancestor
    /// <branch> main` succeeds.
    MergedIfAncestor,
}

/// How to tell whether a branch is merged, from the outputs of
/// `git rev-parse <branch>` and `git rev-parse main`.
pub fn merge_check(branch_rev: &str, main_rev: &str) -> (check: MergeCheck)
    ensures
        check is NotMerged <==> trim(branch_rev@) == trim(main_rev@),
{
    if branch_untouched(branch_rev, main_rev) {
        MergeCheck::NotMerged
    } else {
        MergeCheck::MergedIfAncestor
    }
}

// ---------------------------------------------------------------------------
// Branch age
// ---------------------------------------------------------------------------

/// An ASCII decimal digit.
pub open spec fn is_digit(c: char) -> bool {
    '0' <= c <= '9'
}

/// The value of the decimal digit `c`.
pub open spec fn digit_value(c: char) -> int {
    c as int - '0' as int
}

/// The value of a sequence of decimal digits (0 for none).
pub open spec fn digits_value(ds: Seq<char>) -> int
    decreases ds.len(),
{
    if ds.len() == 0 {
        0
    } else {
        digits_value(ds.drop_last()) * 10 + digit_value(ds.last())
    }
}

/// Every character of `ds` is a decimal digit.
pub open spec fn all_digits(ds: Seq<char>) -> bool {
    forall|i: int| 0 <= i < ds.len() ==> is_digit(#[trigger] ds[i])
}

/// `s` begins with a sign.
pub open spec fn has_sign(s: Seq<char>) -> bool {
    s.len() > 0 && (s[0] == '-' || s[0] == '+')
}

/// The digits of `s`: what follows its sign, if it has one.
pub open spec fn unsigned_part(s: Seq<char>) -> Seq<char> {
    if has_sign(s) {
        s.drop_first()
    } else {
        s
    }
}

/// The value that `s` denotes, ignoring the range of `i64`.
pub open spec fn signed_value(s: Seq<char>) -> int {
    if s.len() > 0 && s[0] == '-' {
        -digits_value(unsigned_part(s))
    } else {
        digits_value(unsigned_part(s))
    }
}

/// `str::parse::<i64>`: an optional `+` or `-`, then one or more decimal
/// digits, and a value in the range of `i64`; anything else is refused.
pub open spec fn parse_i64(s: Seq<char>) -> Option<i64> {
    let ds = unsigned_part(s);
    if ds.len() > 0 && all_digits(ds) && i64::MIN <= signed_value(s) <= i64::MAX {
        Some(signed_value(s) as i64)
    } else {
        None
    }
}

/// The commit time that `git log -1 --format=%ct` printed: its trimmed output
/// read as an `i64`.
pub open spec fn commit_time(log_output: Seq<char>) -> Option<i64> {
    parse_i64(trim(log_output))
}

/// Integer division that rounds toward zero, as `/` does on `i64`.
pub open spec fn div_toward_zero(a: int, d: int) -> int {
    if a >= 0 {
        a / d
    } else {
        -((-a) / d)
    }
}

/// The number of seconds in a day.
pub open spec fn seconds_per_day() -> int {
    86400
}

/// `((now - time) / 86400) as u64`: whole days from `time` to `now`, a
/// negative count wrapping around as `as u64` does.
pub open spec fn days_between(time: int, now: int) -> int {
    let q = div_toward_zero(now - time, seconds_per_day());
    if q >= 0 {
        q
    } else {
        q + 0x1_0000_0000_0000_0000
    }
}

/// The subtraction `now - time` stays within `i64`.
pub open spec fn difference_fits(time: int, now: int) -> bool {
    i64::MIN <= now - time <= i64::MAX
}

proof fn lemma_digits_value_nonneg(ds: Seq<char>)
    requires
        all_digits(ds),
    ensures
        digits_value(ds) >= 0,
    decreases ds.len(),
{
    if ds.len() > 0 {
        assert(all_digits(ds.drop_last())) by {
            assert forall|i: int| 0 <= i < ds.drop_last().len() implies is_digit(
                #[trigger] ds.drop_last()[i],
            ) by {
                assert(ds.drop_last()[i] == ds[i]);
            }
        }
        lemma_digits_value_nonneg(ds.drop_last());
        assert(is_digit(ds[ds.len() - 1]));
    }
}

/// A longer run of digits is worth at least as much as its prefix.
proof fn lemma_digits_value_grows(ds: Seq<char>, k: int)
    requires
        all_digits(ds),
        0 <= k <= ds.len(),
    ensures
        digits_value(ds) >= digits_value(ds.take(k)),
    decreases ds.len() - k,
{
    if k < ds.len() {
        lemma_digits_value_grows(ds, k + 1);
        let p = ds.take(k + 1);
        assert(p.drop_last() =~= ds.take(k));
        assert(all_digits(ds.take(k))) by {
            assert forall|i: int| 0 <= i < ds.take(k).len() implies is_digit(
                #[trigger] ds.take(k)[i],
            ) by {
                assert(ds.take(k)[i] == ds[i]);
            }
        }
        lemma_digits_value_nonneg(ds.take(k));
        assert(is_digit(ds[k]));
        assert(p.last() == ds[k]);
        assert(digit_value(ds[k]) >= 0);
        assert(digits_value(p) == digits_value(p.drop_last()) * 10 + digit_value(p.last()));
    } else {
        assert(ds.take(k) =~= ds);
    }
}

/// The value of a decimal digit character, or `None` for another character.
fn digit_of(c: char) -> (d: Option<u64>)
    ensures
        match d {
            Some(v) => is_digit(c) && v == digit_value(c),
            None => !is_digit(c),
        },
{
    if '0' <= c && c <= '9' {
        Some((c as u32 - '0' as u32) as u64)
    } else {
        None
    }
}

/// `str::parse::<i64>` on the characters `s`.
pub fn parse_i64_chars(s: &Vec<char>) -> (r: Option<i64>)
    ensures
        r == parse_i64(s@),
{
    let n = s.len();
    if n == 0 {
        return None;
    }
    let negative = s[0] == '-';
    let start: usize = if s[0] == '-' || s[0] == '+' {
        1
    } else {
        0
    };
    let ghost ds = unsigned_part(s@);
    assert(ds =~= s@.skip(start as int));
    if start == n {
        return None;
    }
    // The magnitude read so far; it never exceeds 2^63.
    let mut acc: u64 = 0;
    let mut i: usize = start;
    assert(ds.take(0) =~= seq![]);
    while i < n
        invariant
            start <= i <= n,
            n == s.len(),
            ds == s@.skip(start as int),
            ds == unsigned_part(s@),
            all_digits(ds.take(i - start)),
            acc == digits_value(ds.take(i - start)),
            acc <= 0x8000_0000_0000_0000,
        decreases n - i,
    {
        let ghost k = i - start;
        assert(ds[k] == s@[i as int]);
        match digit_of(s[i]) {
            None => {
                assert(!all_digits(ds));
                return None;
            },
            Some(d) => {
                assert(ds.take(k + 1).drop_last() =~= ds.take(k));
                assert(ds.take(k + 1).last() == ds[k]);
                assert(all_digits(ds.take(k + 1))) by {
                    assert forall|j: int| 0 <= j < ds.take(k + 1).len() implies is_digit(
                        #[trigger] ds.take(k + 1)[j],
                    ) by {
                        if j < k {
                            assert(ds.take(k + 1)[j] == ds.take(k)[j]);
                        }
                    }
                }
                if acc > (0x8000_0000_0000_0000 - d) / 10 {
                    proof {
                        assert(digits_value(ds.take(k + 1)) > 0x8000_0000_0000_0000);
                        if all_digits(ds) {
                            lemma_digits_value_grows(ds, k + 1);
                        }
                    }
                    return None;
                }
                acc = acc * 10 + d;
                i = i + 1;
            },
        }
    }
    assert(ds.take(n - start) =~= ds);
    if negative {
        if acc == 0x8000_0000_0000_0000 {
            Some(i64::MIN)
        } else {
            Some(-(acc as i64))
        }
    } else if acc > 0x7fff_ffff_ffff_ffff {
        None
    } else {
        Some(acc as i64)
    }
}

/// The whole days from the commit time printed by `git log -1 --format=%ct`
/// to `now`: `None` when the output is not a time.
pub fn age_days_at(log_output: &str, now: i64) -> (days: Option<u64>)
    requires
        commit_time(log_output@) matches Some(t) ==> difference_fits(t as int, now as int),
    ensures
        match commit_time(log_output@) {
            Some(t) => days == Some(days_between(t as int, now as int) as u64),
            None => days is None,
        },
{
    let trimmed = trim_chars(&chars_of(log_output));
    match parse_i64_chars(&trimmed) {
        None => None,
        Some(t) => {
            let diff: i64 = now - t;
            if diff >= 0 {
                Some((diff as u64) / 86400)
            } else {
                let magnitude: u64 = ((-(diff + 1)) as u64) + 1;
                let q: u64 = magnitude / 86400;
                if q == 0 {
                    Some(0)
                } else {
                    Some(u64::MAX - q + 1)
                }
            }
        },
    }
}

/// For a commit at or before `now`, the age is the number of whole days
/// that have passed: at least that many days of seconds, and less than one
/// day more. In particular a commit less than a day old is zero days old.
pub proof fn lemma_age_counts_whole_days(time: int, now: int)
    requires
        time <= now,
    ensures
        days_between(time, now) * 86400 <= now - time < (days_between(time, now) + 1) * 86400,
        now - time < 86400 ==> days_between(time, now) == 0,
{
}

/// The current time in whole seconds since the Unix epoch, as chrono's
/// `DateTime::from_timestamp(..).timestamp()` gives it for the reading of
/// `std::time::SystemTime::now()`; `None` when the clock reads before the
/// epoch or beyond what chrono can represent. The clock decides the value;
/// what is stated holds of every reading.
#[verifier::external_body]
fn unix_now() -> (t: Option<i64>)
    ensures
        t matches Some(v) ==> v >= 0,
{
    let since = std::time::SystemTime::now().duration_since(std::time::UNIX_EPOCH).ok()?;
    let secs = i64::try_from(since.as_secs()).ok()?;
    Some(chrono::DateTime::from_timestamp(secs, since.subsec_nanos())?.timestamp())
}

/// The age in days of a branch from the output of `git log -1 --format=%ct`,
/// measured against the current time: `None` when the output is not a time,
/// when the clock cannot be read, or when the difference from the current
/// time does not fit in an `i64` (possible only for a commit time before the
/// epoch).
pub fn branch_age_days(log_output: &str) -> (days: Option<u64>)
    ensures
        commit_time(log_output@) is None ==> days is None,
        days matches Some(d) ==> commit_time(log_output@) is Some && exists|now: i64|
            #![trigger days_between(commit_time(log_output@)->0 as int, now as int)]
            now >= 0 && difference_fits(commit_time(log_output@)->0 as int, now as int) && d
                == days_between(commit_time(log_output@)->0 as int, now as int),
{
    let trimmed = trim_chars(&chars_of(log_output));
    match parse_i64_chars(&trimmed) {
        None => None,
        Some(t) => {
            let now = match unix_now() {
                Some(now) => now,
                None => return None,
            };
            if t < 0 && now > i64::MAX + t {
                assert(!difference_fits(t as int, now as int));
                None
            } else {
                age_days_at(log_output, now)
            }
        },
    }
}

// ---------------------------------------------------------------------------
// The main checkout
// ---------------------------------------------------------------------------

/// The worktrees of a repository without its main checkout, which
/// `git worktree list` always names first.
pub fn without_main_checkout(worktrees: Vec<Worktree>) -> (linked: Vec<Worktree>)
    ensures
        worktrees@.len() == 0 ==> linked@ == worktrees@,
        worktrees@.len() > 0 ==> linked@ == worktrees@.drop_first(),
{
    let mut linked = worktrees;
    if linked.len() > 0 {
        linked.remove(0);
    }
    linked
}

} // verus!
