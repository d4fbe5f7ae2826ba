//! Streak analysis over a year's stream sessions: how many distinct
//! calendar days saw a stream, and the longest gap ("ditch") without one.

use vstd::prelude::*;
use vstd::set_lib::{lemma_int_range, lemma_len_subset, lemma_set_disjoint_lens, set_int_range};

use crate::datetime::{
    day_of, days_before_year, spec_year_of_time, MAX_DAY_NUMBER, MAX_TIME_SECS,
};
use crate::model::{valid_year, Year};
use crate::sullygnome::{end_secs, spec_duration_to, valid_stream, valid_streams, StreamData};

verus! {

/// What `humantime` renders for a duration of `secs` whole seconds: a
/// fixed human-readable spelling that depends on the seconds alone.
pub uninterp spec fn human_duration_of(secs: u64) -> Seq<char>;

/// Relies on humantime::format_duration: renders a duration as text such
/// as "10days 5h 3m", deterministically from the duration alone.
#[verifier::external_body]
fn humanize_secs(secs: u64) -> (r: String)
    ensures
        r@ == human_duration_of(secs),
{
    humantime::format_duration(std::time::Duration::from_secs(secs)).to_string()
}

/// The longest observed gap without streaming: either still running
/// (open-ended, only a start), or a past, closed gap with a rendered
/// duration.
#[derive(Debug, PartialEq)]
pub enum LongestDitch {
    Current { from: u64 },
    Past { from: u64, duration: String },
}

/// The first calendar day a session touches.
pub open spec fn day0(s: StreamData) -> int {
    day_of(s.start_date_time)
}

/// The last calendar day a session touches: the day its end instant falls
/// on, even when it ends exactly at midnight.
pub open spec fn day1(s: StreamData) -> int {
    end_secs(s) / 86400
}

/// The set of calendar days touched by at least one of the sessions.
pub open spec fn touched_days(ss: Seq<StreamData>) -> Set<int> {
    Set::new(|d: int| exists|i: int| 0 <= i < ss.len() && day0(#[trigger] ss[i]) <= d <= day1(ss[i]))
}

/// The sessions are ordered newest to oldest and do not overlap: each
/// session ends no later than the previous (more recent) one starts.
pub open spec fn sorted_newest_first(ss: Seq<StreamData>) -> bool {
    forall|i: int| 1 <= i < ss.len() ==> end_secs(#[trigger] ss[i]) <= ss[i - 1].start_date_time
}

/// A session's touched days form the integer range `[day0, day1]`.
pub open spec fn day_range(s: StreamData) -> Set<int> {
    set_int_range(day0(s), day1(s) + 1)
}

/// A modelled session's days sit inside the modelled day range, and its
/// last day is not before its first.
proof fn lemma_day_bounds(s: StreamData)
    requires
        valid_stream(s),
    ensures
        0 <= day0(s) <= day1(s) < MAX_DAY_NUMBER,
{
    vstd::arithmetic::div_mod::lemma_div_is_ordered(
        s.start_date_time as int,
        end_secs(s),
        86400,
    );
    vstd::arithmetic::div_mod::lemma_div_is_ordered(end_secs(s), MAX_TIME_SECS as int - 1, 86400);
    vstd::arithmetic::div_mod::lemma_div_pos_is_pos(s.start_date_time as int, 86400);
    assert((MAX_TIME_SECS as int - 1) / 86400 == MAX_DAY_NUMBER - 1) by {
        vstd::arithmetic::div_mod::lemma_fundamental_div_mod_converse(
            MAX_TIME_SECS as int - 1,
            86400,
            MAX_DAY_NUMBER as int - 1,
            86399,
        );
    }
}

/// Every touched day of modelled sessions lies in the modelled day range,
/// so the touched set is finite and no larger than that range.
proof fn lemma_touched_in_range(ss: Seq<StreamData>)
    requires
        valid_streams(ss),
    ensures
        touched_days(ss).subset_of(set_int_range(0, MAX_DAY_NUMBER as int)),
        touched_days(ss).finite(),
        touched_days(ss).len() <= MAX_DAY_NUMBER,
{
    assert forall|d: int| touched_days(ss).contains(d) implies set_int_range(
        0,
        MAX_DAY_NUMBER as int,
    ).contains(d) by {
        let i = choose|i: int| 0 <= i < ss.len() && day0(#[trigger] ss[i]) <= d <= day1(ss[i]);
        lemma_day_bounds(ss[i]);
    }
    lemma_int_range(0, MAX_DAY_NUMBER as int);
    lemma_len_subset(touched_days(ss), set_int_range(0, MAX_DAY_NUMBER as int));
}

/// Taking one more session into account adds exactly that session's day
/// range to the touched set.
proof fn lemma_touched_push(ss: Seq<StreamData>, i: int)
    requires
        0 <= i < ss.len(),
    ensures
        touched_days(ss.subrange(0, i + 1)) =~= touched_days(ss.subrange(0, i)).union(
            day_range(ss[i]),
        ),
{
    let pre = ss.subrange(0, i);
    let post = ss.subrange(0, i + 1);
    assert forall|d: int| touched_days(post).contains(d) implies touched_days(pre).contains(d)
        || day_range(ss[i]).contains(d) by {
        let j = choose|j: int| 0 <= j < post.len() && day0(#[trigger] post[j]) <= d <= day1(
            post[j],
        );
        if j < i {
            assert(pre[j] == post[j]);
            assert(0 <= j < pre.len() && day0(pre[j]) <= d <= day1(pre[j]));
        } else {
            assert(post[j] == ss[i]);
        }
    }
    assert forall|d: int| touched_days(pre).contains(d) implies touched_days(post).contains(d) by {
        let j = choose|j: int| 0 <= j < pre.len() && day0(#[trigger] pre[j]) <= d <= day1(pre[j]);
        assert(post[j] == pre[j]);
        assert(0 <= j < post.len() && day0(post[j]) <= d <= day1(post[j]));
    }
    assert forall|d: int| day_range(ss[i]).contains(d) implies touched_days(post).contains(d) by {
        assert(post[i] == ss[i]);
        assert(0 <= i < post.len() && day0(post[i]) <= d <= day1(post[i]));
    }
}

/// How many distinct calendar days are touched by at least one of the
/// sessions. An interval spanning midnight counts on every day it
/// touches; a day shared by two sessions counts once.
pub fn count(streams: &Vec<StreamData>) -> (r: usize)
    requires
        valid_streams(streams@),
        sorted_newest_first(streams@),
    ensures
        r == touched_days(streams@).len(),
{
    let ghost ss = streams@;
    let mut n: usize = 0;
    let mut last: u64 = 0;
    let mut i: usize = 0;
    proof {
        assert(ss.subrange(0, 0) =~= Seq::<StreamData>::empty());
        assert(touched_days(ss.subrange(0, 0)) =~= Set::<int>::empty());
    }
    while i < streams.len()
        invariant
            ss == streams@,
            valid_streams(ss),
            sorted_newest_first(ss),
            0 <= i <= ss.len(),
            touched_days(ss.subrange(0, i as int)).finite(),
            n == touched_days(ss.subrange(0, i as int)).len(),
            n <= MAX_DAY_NUMBER,
            i == 0 ==> n == 0,
            i > 0 ==> last == day0(ss[i - 1]) && touched_days(ss.subrange(0, i as int)).contains(
                last as int,
            ),
            i > 0 ==> forall|d: int|
                touched_days(ss.subrange(0, i as int)).contains(d) ==> d >= last,
        decreases ss.len() - i,
    {
        let s = streams[i];
        let a = s.start_date_time / 86400;
        let b = s.end_date_time() / 86400;
        let ghost pre = touched_days(ss.subrange(0, i as int));
        let ghost post = touched_days(ss.subrange(0, i as int + 1));
        proof {
            lemma_day_bounds(s);
            assert(a == day0(s));
            assert(b == day1(s));
            lemma_touched_push(ss, i as int);
            lemma_int_range(a as int, b as int + 1);
            lemma_touched_in_range(ss.subrange(0, i as int + 1));
        }
        if i == 0 {
            proof {
                assert(pre.union(day_range(s)) =~= day_range(s));
            }
            n = (b - a) as usize + 1;
            last = a;
        } else {
            proof {
                assert(end_secs(ss[i as int]) <= ss[i as int - 1].start_date_time);
                vstd::arithmetic::div_mod::lemma_div_is_ordered(
                    end_secs(ss[i as int]),
                    ss[i as int - 1].start_date_time as int,
                    86400,
                );
                assert(b <= last);
            }
            if b < last {
                proof {
                    assert(pre.disjoint(day_range(s)));
                    lemma_set_disjoint_lens(pre, day_range(s));
                    assert(pre + day_range(s) == pre.union(day_range(s)));
                }
                n = n + ((b - a) as usize + 1);
            } else {
                proof {
                    assert(b == last);
                    let partial = set_int_range(a as int, last as int);
                    lemma_int_range(a as int, last as int);
                    assert(pre.union(day_range(s)) =~= pre.union(partial));
                    assert(pre.disjoint(partial));
                    lemma_set_disjoint_lens(pre, partial);
                    assert(pre + partial == pre.union(partial));
                }
                n = n + (last - a) as usize;
            }
            last = a;
        }
        proof {
            assert(post.contains(a as int));
            assert forall|d: int| post.contains(d) implies d >= a by {
                if pre.contains(d) {
                } else {
                    assert(day_range(s).contains(d));
                }
            }
        }
        i = i + 1;
    }
    proof {
        assert(ss.subrange(0, ss.len() as int) =~= ss);
    }
    n
}

/// The gap between adjacent sessions `i` (newer) and `i + 1` (older) of a
/// newest-first sequence, in seconds.
pub open spec fn gap_at(ss: Seq<StreamData>, i: int) -> int {
    spec_duration_to(ss[i + 1], ss[i])
}

/// The index of the adjacent pair with the largest gap among the first
/// `m` pairs, keeping the first maximum encountered in pair order.
pub open spec fn best_gap_index(ss: Seq<StreamData>, m: int) -> int
    decreases m,
{
    if m <= 1 {
        0
    } else {
        let b = best_gap_index(ss, m - 1);
        if gap_at(ss, m - 1) > gap_at(ss, b) {
            m - 1
        } else {
            b
        }
    }
}

/// The selected pair really carries the largest gap, and earlier pairs
/// with the same gap do not exist: the first maximum wins.
pub proof fn lemma_best_gap_is_max(ss: Seq<StreamData>, m: int)
    requires
        1 <= m,
    ensures
        0 <= best_gap_index(ss, m) < m,
        forall|k: int| 0 <= k < m ==> #[trigger] gap_at(ss, k) <= gap_at(ss, best_gap_index(ss, m)),
        forall|k: int|
            0 <= k < best_gap_index(ss, m) ==> #[trigger] gap_at(ss, k) < gap_at(
                ss,
                best_gap_index(ss, m),
            ),
    decreases m,
{
    if m > 1 {
        lemma_best_gap_is_max(ss, m - 1);
    }
}

/// A nonnegative number of seconds out of a possibly negative gap:
/// overlapping sessions yield a zero-length ditch.
pub open spec fn clamped_secs(g: int) -> u64 {
    if g >= 0 {
        g as u64
    } else {
        0
    }
}

/// `r` is the open-ended ditch that started at `from`.
pub open spec fn is_current_ditch(r: LongestDitch, from: int) -> bool {
    &&& r matches LongestDitch::Current { from: f }
    &&& f == from
}

/// `r` is a closed ditch that started at `from` and is rendered with the
/// human-readable spelling of `secs` seconds.
pub open spec fn is_past_ditch(r: LongestDitch, from: int, secs: u64) -> bool {
    &&& r matches LongestDitch::Past { from: f, duration: d }
    &&& f == from
    &&& d@ == human_duration_of(secs)
}

/// What `LongestDitch::calculate` returns for a newest-first session list:
/// the largest adjacent gap (first maximum on ties); for the running year
/// the still-open gap since the last session competes with it, and an
/// empty list anchors the open ditch at the start of the year; a past year
/// with fewer than two sessions falls back to a zero-length ditch at the
/// year start.
pub open spec fn spec_longest_ditch(year: Year, ss: Seq<StreamData>, now: u64, r: LongestDitch) -> bool {
    let m = ss.len() as int - 1;
    let b = best_gap_index(ss, m);
    match year {
        Year::Current => {
            if ss.len() == 0 {
                is_current_ditch(r, 86400 * days_before_year(spec_year_of_time(now)))
            } else if ss.len() == 1 {
                is_current_ditch(r, end_secs(ss[0]))
            } else if now - end_secs(ss[0]) < gap_at(ss, b) {
                is_past_ditch(r, end_secs(ss[b + 1]), clamped_secs(gap_at(ss, b)))
            } else {
                is_current_ditch(r, end_secs(ss[0]))
            }
        },
        Year::Last(y) => {
            if ss.len() >= 2 {
                is_past_ditch(r, end_secs(ss[b + 1]), clamped_secs(gap_at(ss, b)))
            } else {
                r matches LongestDitch::Past { from: f, duration: d } && f == 86400
                    * days_before_year(y as int) && d@ == "0"@
            }
        },
    }
}

impl LongestDitch {
    /// An open-ended ditch that started at `from`.
    fn current(from: u64) -> (r: Self)
        ensures
            is_current_ditch(r, from as int),
    {
        Self::Current { from }
    }

    /// A closed ditch between the older session's end and the newer
    /// session's start, rendered with a human-readable duration.
    fn past(older: &StreamData, newer: &StreamData) -> (r: Self)
        requires
            valid_stream(*older),
            valid_stream(*newer),
        ensures
            is_past_ditch(r, end_secs(*older), clamped_secs(spec_duration_to(*older, *newer))),
    {
        let g = older.duration_to(newer);
        let secs: u64 = if g >= 0 {
            g as u64
        } else {
            0
        };
        Self::Past { from: older.end_date_time(), duration: humanize_secs(secs) }
    }

    /// The longest ditch of the year's sessions (newest first), judged at
    /// instant `now` for the running year.
    pub fn calculate(year: Year, streams: &Vec<StreamData>, now: u64) -> (r: Self)
        requires
            valid_streams(streams@),
            valid_year(year, now),
        ensures
            spec_longest_ditch(year, streams@, now, r),
    {
        let ghost ss = streams@;
        if streams.len() >= 2 {
            let m = streams.len() - 1;
            let mut best_idx: usize = 0;
            let mut best_gap: i64 = streams[1].duration_to(&streams[0]);
            let mut p: usize = 1;
            while p < m
                invariant
                    ss == streams@,
                    valid_streams(ss),
                    2 <= ss.len(),
                    m == ss.len() - 1,
                    1 <= p <= m,
                    0 <= best_idx < p,
                    best_idx == best_gap_index(ss, p as int),
                    best_gap == gap_at(ss, best_idx as int),
                decreases m - p,
            {
                let g = streams[p + 1].duration_to(&streams[p]);
                if g > best_gap {
                    best_idx = p;
                    best_gap = g;
                }
                p = p + 1;
            }
            match year {
                Year::Current => {
                    let dangling = streams[0].duration_to_now(now);
                    if dangling < best_gap {
                        Self::past(&streams[best_idx + 1], &streams[best_idx])
                    } else {
                        Self::current(streams[0].end_date_time())
                    }
                },
                Year::Last(_) => Self::past(&streams[best_idx + 1], &streams[best_idx]),
            }
        } else {
            match year {
                Year::Current => {
                    if streams.len() == 0 {
                        let y = crate::datetime::year_of_time(now);
                        Self::current(crate::datetime::first_day_in_year(y))
                    } else {
                        Self::current(streams[0].end_date_time())
                    }
                },
                Year::Last(year) => Self::Past {
                    from: crate::datetime::first_day_in_year(year),
                    duration: "0".to_owned(),
                },
            }
        }
    }
}

} // verus!
