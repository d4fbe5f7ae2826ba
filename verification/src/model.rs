//! The computed year snapshot and its building blocks: the year selector,
//! exact ratios, category parsing, the per-day histogram and the snapshot
//! constructor.

use vstd::prelude::*;

use crate::datetime::{
    self, day_of, days_before_year, days_of_year, spec_year_of_time, valid_time, MAX_YEAR, MIN_YEAR,
};
use crate::error::Error;
use crate::streamcounter::{
    count, sorted_newest_first, spec_longest_ditch, touched_days, LongestDitch,
};
use crate::sullygnome::{
    days_spanned, end_secs, seg_hi, seg_lo, seg_minutes, valid_stream, valid_streams, GameData,
    GamesResponse, StreamData, StreamsResponse,
};
use vstd::string::StrSliceExecFns;

verus! {

/// Which year a request is about: the running calendar year, or an
/// explicit past year.
#[derive(Debug, Copy, Clone, Eq, PartialEq, Structural)]
pub enum Year {
    Current,
    Last(i32),
}

/// The year selector is one the engine models: a past year lies in the
/// modelled year range, and for the running year the clock reading does.
pub open spec fn valid_year(year: Year, now: u64) -> bool {
    match year {
        Year::Current => valid_time(now),
        Year::Last(y) => MIN_YEAR <= y <= MAX_YEAR,
    }
}

/// Calendar days the year has seen by instant `now`: days elapsed so far
/// for the running year, the year's full length for a past year.
pub open spec fn spec_days_till_today(year: Year, now: u64) -> int {
    match year {
        Year::Current => day_of(now) - days_before_year(spec_year_of_time(now)) + 1,
        Year::Last(y) => days_of_year(y as int),
    }
}

/// The calendar year number the selector resolves to at instant `now`.
pub open spec fn spec_year_number(year: Year, now: u64) -> int {
    match year {
        Year::Current => spec_year_of_time(now),
        Year::Last(y) => y as int,
    }
}

impl Year {
    /// Calendar days the year has seen by instant `now`: days elapsed so
    /// far (January 1st through today, inclusive) for the running year,
    /// the year's full length for a past year.
    pub fn days_till_today(self, now: u64) -> (r: usize)
        requires
            valid_year(self, now),
        ensures
            r == spec_days_till_today(self, now),
            1 <= r <= 366,
    {
        match self {
            Year::Current => datetime::days_in_current_year(now),
            Year::Last(year) => datetime::days_in_year(year),
        }
    }

    /// The calendar year number this selector resolves to at instant
    /// `now`.
    pub fn number(self, now: u64) -> (r: i32)
        requires
            valid_year(self, now),
        ensures
            r == spec_year_number(self, now),
            MIN_YEAR <= r <= MAX_YEAR,
    {
        match self {
            Year::Current => datetime::year_of_time(now),
            Year::Last(n) => n,
        }
    }
}

/// An exact fraction `num / den` with `0 <= num <= den` and `den >= 1`,
/// used where the rendering layer shows a percentage. Kept as integers so
/// every ratio in a snapshot is exact.
#[derive(Debug, Clone, Copy, PartialEq, Eq, Structural)]
pub struct Ratio {
    pub num: u64,
    pub den: u64,
}

/// A well-formed ratio: a denominator of at least one, and a value within
/// `[0, 1]`.
pub open spec fn ratio_wf(r: Ratio) -> bool {
    1 <= r.den && r.num <= r.den
}

impl Ratio {
    /// The ratio `0 / 1`, the defined value of every ratio whose natural
    /// denominator would be zero.
    pub fn zero() -> (r: Ratio)
        ensures
            r == (Ratio { num: 0, den: 1 }),
            ratio_wf(r),
    {
        Ratio { num: 0, den: 1 }
    }

    /// The ratio `1 / 1`.
    pub fn one() -> (r: Ratio)
        ensures
            r == (Ratio { num: 1, den: 1 }),
            ratio_wf(r),
    {
        Ratio { num: 1, den: 1 }
    }

    /// The ratio `num / den`.
    pub fn of(num: u64, den: u64) -> (r: Ratio)
        requires
            1 <= den,
            num <= den,
        ensures
            r == (Ratio { num, den }),
            ratio_wf(r),
    {
        Ratio { num, den }
    }

    /// Whether this ratio is at least `tenths / 10`.
    pub fn at_least_tenths(&self, tenths: u64) -> (b: bool)
        requires
            tenths <= 10,
        ensures
            b == (10 * self.num >= tenths * self.den),
    {
        proof {
            vstd::arithmetic::mul::lemma_mul_upper_bound(
                tenths as int,
                10,
                self.den as int,
                u64::MAX as int,
            );
        }
        10u128 * (self.num as u128) >= (tenths as u128) * (self.den as u128)
    }
}

/// The share of total streamed time spent in the main category and the
/// share spent outside it, as exact ratios. A total of zero yields the
/// defined value zero for both shares (never an undefined division).
pub fn variety_ratios(total_time: u64, main_time: u64) -> (r: (Ratio, Ratio))
    requires
        main_time <= total_time,
    ensures
        total_time == 0 ==> r.0 == (Ratio { num: 0, den: 1 }) && r.1 == (Ratio { num: 0, den: 1 }),
        total_time > 0 ==> r.0 == (Ratio { num: main_time, den: total_time }) && r.1 == (Ratio {
            num: (total_time - main_time) as u64,
            den: total_time,
        }),
        ratio_wf(r.0) && ratio_wf(r.1),
{
    if total_time == 0 {
        (Ratio::zero(), Ratio::zero())
    } else {
        (Ratio::of(main_time, total_time), Ratio::of(total_time - main_time, total_time))
    }
}

/// The index of the first `'|'` in `s` at or after position `i`, or
/// `s.len()` if there is none.
pub open spec fn pipe_idx(s: Seq<char>, i: int) -> int
    decreases s.len() - i,
{
    if i >= s.len() {
        s.len() as int
    } else if s[i] == '|' {
        i
    } else {
        pipe_idx(s, i + 1)
    }
}

/// What the pipe-delimited category descriptor parses to: the grammar is
/// `category '|' image '|' rest`, where `category` and `image` are
/// non-empty and hold no `'|'`, and `rest` is non-empty. On a match the
/// result is `(category, image)`; anything else is malformed.
pub open spec fn spec_extract(s: Seq<char>) -> Option<(Seq<char>, Seq<char>)> {
    let p1 = pipe_idx(s, 0);
    let p2 = pipe_idx(s, p1 + 1);
    if 1 <= p1 && p1 < s.len() && p1 + 1 < p2 && p2 < s.len() && p2 + 1 < s.len() {
        Some((s.subrange(0, p1), s.subrange(p1 + 1, p2)))
    } else {
        None
    }
}

/// The index of the first `'|'` in `s` at or after `from`, or the length
/// of `s` if there is none.
fn find_pipe(s: &str, from: usize, len: usize) -> (r: usize)
    requires
        len == s@.len(),
        from <= len,
    ensures
        r == pipe_idx(s@, from as int),
        from <= r <= len,
        r < len ==> s@[r as int] == '|',
        forall|j: int| from <= j < r ==> s@[j] != '|',
{
    let mut j = from;
    while j < len
        invariant
            len == s@.len(),
            from <= j <= len,
            pipe_idx(s@, from as int) == pipe_idx(s@, j as int),
            forall|k: int| from <= k < j ==> s@[k] != '|',
        decreases len - j,
    {
        if s.get_char(j) == '|' {
            return j;
        }
        j = j + 1;
    }
    j
}

/// Parse a raw category descriptor into `(category, imageUrl)`, or
/// `None` where it does not match the pipe-delimited encoding.
pub fn extract_category_and_url(gamesplayed: &str) -> (r: Option<(String, String)>)
    ensures
        r is Some <==> spec_extract(gamesplayed@) is Some,
        r matches Some(p) ==> spec_extract(gamesplayed@) matches Some(q) && p.0@ == q.0 && p.1@
            == q.1,
{
    let len = gamesplayed.unicode_len();
    let p1 = find_pipe(gamesplayed, 0, len);
    if p1 < 1 || p1 >= len {
        return None;
    }
    let p2 = find_pipe(gamesplayed, p1 + 1, len);
    if p2 <= p1 + 1 || p2 >= len || p2 + 1 >= len {
        return None;
    }
    let category = gamesplayed.substring_char(0, p1).to_owned();
    let image = gamesplayed.substring_char(p1 + 1, p2).to_owned();
    Some((category, image))
}

/// Whether a raw category descriptor names the designated main category:
/// it starts with the letters of "Overwatch".
pub open spec fn is_main_game(s: Seq<char>) -> bool {
    s.len() >= 9 && s.subrange(0, 9) == "Overwatch"@
}

/// Whether `s` starts with the designated main-category name.
pub fn starts_with_main(s: &str) -> (r: bool)
    ensures
        r == is_main_game(s@),
{
    let lit = "Overwatch";
    proof {
        reveal_strlit("Overwatch");
    }
    if s.unicode_len() < 9 {
        return false;
    }
    let mut i: usize = 0;
    while i < 9
        invariant
            s@.len() >= 9,
            lit@ == "Overwatch"@,
            lit@.len() == 9,
            0 <= i <= 9,
            forall|j: int| 0 <= j < i ==> s@[j] == lit@[j],
        decreases 9 - i,
    {
        if s.get_char(i) != lit.get_char(i) {
            proof {
                assert(s@.subrange(0, 9)[i as int] != "Overwatch"@[i as int]);
            }
            return false;
        }
        i = i + 1;
    }
    proof {
        assert(s@.subrange(0, 9) =~= "Overwatch"@);
    }
    true
}

/// One game of the processed snapshot: its streamed time and the parsed
/// category name and image URL.
#[derive(Debug, PartialEq)]
pub struct GameModel {
    pub time_streamed_min: u64,
    pub category: String,
    pub category_image: String,
}

impl GameModel {
    /// Parse one upstream game row; a malformed category descriptor is a
    /// `MalformedCategory` error.
    pub fn try_from(value: crate::sullygnome::GameData) -> (r: Result<GameModel, Error>)
        ensures
            r is Ok <==> spec_extract(value.gamesplayed@) is Some,
            r matches Ok(m) ==> spec_extract(value.gamesplayed@) matches Some(q)
                && m.time_streamed_min == value.streamtime && m.category@ == q.0
                && m.category_image@ == q.1,
            r matches Err(e) ==> e == Error::MalformedCategory,
    {
        match extract_category_and_url(value.gamesplayed.as_str()) {
            Some(pair) => {
                let (category, category_image) = pair;
                Ok(GameModel { category, category_image, time_streamed_min: value.streamtime })
            },
            None => Err(Error::MalformedCategory),
        }
    }
}

/// The share of elapsed calendar days without a stream, as an exact
/// ratio; defined as exactly one when no day has elapsed.
pub fn percent_ditched(days_ditched: usize, days_until_now: usize) -> (r: Ratio)
    requires
        days_ditched <= days_until_now,
    ensures
        days_until_now == 0 ==> r == (Ratio { num: 1, den: 1 }),
        days_until_now > 0 ==> r == (Ratio {
            num: days_ditched as u64,
            den: days_until_now as u64,
        }),
        ratio_wf(r),
{
    if days_until_now == 0 {
        Ratio::one()
    } else {
        Ratio::of(days_ditched as u64, days_until_now as u64)
    }
}

/// Total seconds streamed across the game rows.
pub open spec fn sum_streamtime(gs: Seq<GameData>) -> int
    decreases gs.len(),
{
    if gs.len() == 0 {
        0
    } else {
        sum_streamtime(gs.drop_last()) + gs.last().streamtime
    }
}

/// Seconds streamed in the designated main category across the game rows.
pub open spec fn sum_main_time(gs: Seq<GameData>) -> int
    decreases gs.len(),
{
    if gs.len() == 0 {
        0
    } else {
        sum_main_time(gs.drop_last()) + if is_main_game(gs.last().gamesplayed@) {
            gs.last().streamtime as int
        } else {
            0
        }
    }
}

/// Total minutes across the stream sessions.
pub open spec fn sum_length_min(ss: Seq<StreamData>) -> int
    decreases ss.len(),
{
    if ss.len() == 0 {
        0
    } else {
        sum_length_min(ss.drop_last()) + ss.last().length
    }
}

/// Main-category time never exceeds total time.
pub proof fn lemma_main_le_total(gs: Seq<GameData>)
    ensures
        0 <= sum_main_time(gs) <= sum_streamtime(gs),
    decreases gs.len(),
{
    if gs.len() > 0 {
        lemma_main_le_total(gs.drop_last());
    }
}

/// A prefix's totals never exceed the whole sequence's totals.
pub proof fn lemma_sum_prefix(gs: Seq<GameData>, i: int)
    requires
        0 <= i <= gs.len(),
    ensures
        0 <= sum_streamtime(gs.subrange(0, i)) <= sum_streamtime(gs),
        0 <= sum_main_time(gs.subrange(0, i)) <= sum_main_time(gs),
    decreases gs.len() - i,
{
    lemma_main_le_total(gs.subrange(0, i));
    if i == gs.len() {
        assert(gs.subrange(0, i) =~= gs);
    } else {
        assert(gs.subrange(0, i + 1).drop_last() =~= gs.subrange(0, i));
        assert(gs.subrange(0, i + 1).last() == gs[i]);
        lemma_sum_prefix(gs, i + 1);
    }
}

/// Minute totals are never negative.
proof fn lemma_sum_min_nonneg(ss: Seq<StreamData>)
    ensures
        sum_length_min(ss) >= 0,
    decreases ss.len(),
{
    if ss.len() > 0 {
        lemma_sum_min_nonneg(ss.drop_last());
    }
}

/// A prefix's total minutes never exceed the whole sequence's.
pub proof fn lemma_sum_min_prefix(ss: Seq<StreamData>, i: int)
    requires
        0 <= i <= ss.len(),
    ensures
        0 <= sum_length_min(ss.subrange(0, i)) <= sum_length_min(ss),
    decreases ss.len() - i,
{
    lemma_sum_min_nonneg(ss.subrange(0, i));
    if i == ss.len() {
        assert(ss.subrange(0, i) =~= ss);
    } else {
        assert(ss.subrange(0, i + 1).drop_last() =~= ss.subrange(0, i));
        assert(ss.subrange(0, i + 1).last() == ss[i]);
        lemma_sum_min_prefix(ss, i + 1);
    }
}

/// Minutes of calendar day `day` covered by the sessions together.
pub open spec fn day_total(ss: Seq<StreamData>, day: int) -> int
    decreases ss.len(),
{
    if ss.len() == 0 {
        0
    } else {
        day_total(ss.drop_last(), day) + seg_minutes(ss.last(), day)
    }
}

/// The largest value of the sequence, or zero when it is empty.
pub open spec fn max_val(s: Seq<u64>) -> int
    decreases s.len(),
{
    if s.len() == 0 {
        0
    } else {
        let m = max_val(s.drop_last());
        if s.last() > m {
            s.last() as int
        } else {
            m
        }
    }
}

/// One session covers at most its own length of any single day.
proof fn lemma_seg_le_length(s: StreamData, d: int)
    requires
        valid_stream(s),
    ensures
        0 <= seg_minutes(s, d) <= s.length,
{
    if seg_lo(s, d) < seg_hi(s, d) {
        let diff = seg_hi(s, d) - seg_lo(s, d);
        assert(diff <= s.length * 60);
        vstd::arithmetic::div_mod::lemma_div_is_ordered(diff, s.length * 60, 60);
        vstd::arithmetic::div_mod::lemma_div_multiples_vanish(s.length as int, 60);
        vstd::arithmetic::div_mod::lemma_div_pos_is_pos(diff, 60);
    }
}

/// A day's total coverage never exceeds the sessions' total minutes.
proof fn lemma_day_total_le_sum(ss: Seq<StreamData>, day: int)
    requires
        valid_streams(ss),
    ensures
        0 <= day_total(ss, day) <= sum_length_min(ss),
    decreases ss.len(),
{
    if ss.len() > 0 {
        assert(valid_stream(ss[ss.len() - 1]));
        lemma_seg_le_length(ss.last(), day);
        assert(valid_streams(ss.drop_last())) by {
            assert(forall|i: int|
                0 <= i < ss.len() - 1 ==> ss.drop_last()[i] == #[trigger] ss[i]);
        }
        lemma_day_total_le_sum(ss.drop_last(), day);
    }
}

/// Days before a session starts, or at or past the end of its span, get
/// nothing from it.
proof fn lemma_seg_outside(s: StreamData, d: int)
    requires
        valid_stream(s),
        d < day_of(s.start_date_time) || d >= day_of(s.start_date_time) + days_spanned(s),
    ensures
        seg_minutes(s, d) == 0,
{
    let start = s.start_date_time as int;
    let end = end_secs(s);
    vstd::arithmetic::div_mod::lemma_fundamental_div_mod(start, 86400);
    vstd::arithmetic::div_mod::lemma_mod_bound(start, 86400);
    if d < day_of(s.start_date_time) {
        assert(86400 * (d + 1) <= 86400 * day_of(s.start_date_time));
    } else if end > start {
        vstd::arithmetic::div_mod::lemma_fundamental_div_mod(end - 1, 86400);
        vstd::arithmetic::div_mod::lemma_mod_bound(end - 1, 86400);
        assert(86400 * ((end - 1) / 86400 + 1) >= end);
        assert(86400 * d >= 86400 * ((end - 1) / 86400 + 1));
    }
}

/// Accounting one more session adds its coverage of the day.
proof fn lemma_day_total_push(ss: Seq<StreamData>, i: int, day: int)
    requires
        0 <= i < ss.len(),
    ensures
        day_total(ss.subrange(0, i + 1), day) == day_total(ss.subrange(0, i), day) + seg_minutes(
            ss[i],
            day,
        ),
{
    assert(ss.subrange(0, i + 1).drop_last() =~= ss.subrange(0, i));
    assert(ss.subrange(0, i + 1).last() == ss[i]);
}

/// The per-day histogram of a year: entry `d` holds the minutes streamed
/// on the year's day `d` (split at midnight boundaries), and the second
/// component is the largest entry.
pub fn fill_days(year: i32, streams: &Vec<StreamData>) -> (r: (Vec<u64>, u64))
    requires
        MIN_YEAR <= year <= MAX_YEAR,
        valid_streams(streams@),
        sum_length_min(streams@) <= u64::MAX,
    ensures
        r.0@.len() == days_of_year(year as int),
        forall|d: int|
            0 <= d < r.0@.len() ==> r.0@[d] == day_total(
                streams@,
                days_before_year(year as int) + d,
            ),
        r.1 == max_val(r.0@),
{
    let ghost ss = streams@;
    let n_days = datetime::days_in_year(year);
    let first = datetime::first_day_number(year);
    let mut days: Vec<u64> = Vec::new();
    while days.len() < n_days
        invariant
            days@.len() <= n_days,
            forall|d: int| 0 <= d < days@.len() ==> days@[d] == 0,
        decreases n_days - days@.len(),
    {
        days.push(0);
    }
    proof {
        assert(ss.subrange(0, 0) =~= Seq::<StreamData>::empty());
    }
    let mut i: usize = 0;
    while i < streams.len()
        invariant
            ss == streams@,
            valid_streams(ss),
            sum_length_min(ss) <= u64::MAX,
            0 <= i <= ss.len(),
            days@.len() == n_days,
            first == days_before_year(year as int),
            forall|d: int|
                0 <= d < n_days ==> days@[d] == day_total(ss.subrange(0, i as int), first + d),
        decreases ss.len() - i,
    {
        let ghost pre = ss.subrange(0, i as int);
        let s = streams[i];
        let ghost d0 = day_of(s.start_date_time);
        let segs = s.day_iter();
        let mut k: usize = 0;
        while k < segs.len()
            invariant
                ss == streams@,
                valid_streams(ss),
                sum_length_min(ss) <= u64::MAX,
                0 <= i < ss.len(),
                s == ss[i as int],
                valid_stream(s),
                pre == ss.subrange(0, i as int),
                d0 == day_of(s.start_date_time),
                days@.len() == n_days,
                first == days_before_year(year as int),
                segs@.len() == days_spanned(s),
                forall|k2: int|
                    0 <= k2 < segs@.len() ==> #[trigger] segs@[k2] == ((d0 + k2) as u64,
                    seg_minutes(s, d0 + k2) as u64),
                0 <= k <= segs@.len(),
                forall|d: int|
                    0 <= d < n_days ==> days@[d] == day_total(pre, first + d) + if d0 <= first + d
                        < d0 + k {
                        seg_minutes(s, first + d)
                    } else {
                        0
                    },
            decreases segs@.len() - k,
        {
            let (dnum, mins) = segs[k];
            let ghost day = d0 + k;
            proof {
                assert(segs@[k as int] == ((d0 + k) as u64, seg_minutes(s, d0 + k) as u64));
                lemma_seg_le_length(s, day);
            }
            if dnum >= first && dnum - first < n_days as u64 {
                let idx = (dnum - first) as usize;
                proof {
                    assert(first + idx == day);
                    assert(days@[idx as int] == day_total(pre, day));
                    lemma_day_total_le_sum(pre, day);
                    lemma_sum_min_prefix(ss, i as int + 1);
                    assert(ss.subrange(0, i as int + 1).drop_last() =~= pre);
                    assert(ss.subrange(0, i as int + 1).last() == s);
                    assert(day_total(pre, day) + seg_minutes(s, day) <= sum_length_min(
                        ss.subrange(0, i as int + 1),
                    ));
                }
                let cur = days[idx];
                days.set(idx, cur + mins);
            }
            k = k + 1;
        }
        proof {
            assert forall|d: int| 0 <= d < n_days implies days@[d] == day_total(
                ss.subrange(0, i as int + 1),
                first + d,
            ) by {
                lemma_day_total_push(ss, i as int, first + d);
                if !(d0 <= first + d < d0 + segs@.len()) {
                    lemma_seg_outside(s, first + d);
                }
            }
        }
        i = i + 1;
    }
    proof {
        assert(ss.subrange(0, ss.len() as int) =~= ss);
    }
    let mut mx: u64 = 0;
    let mut j: usize = 0;
    while j < days.len()
        invariant
            0 <= j <= days@.len(),
            mx == max_val(days@.subrange(0, j as int)),
        decreases days@.len() - j,
    {
        proof {
            assert(days@.subrange(0, j as int + 1).drop_last() =~= days@.subrange(0, j as int));
            assert(days@.subrange(0, j as int + 1).last() == days@[j as int]);
        }
        if days[j] > mx {
            mx = days[j];
        }
        j = j + 1;
    }
    proof {
        assert(days@.subrange(0, days@.len() as int) =~= days@);
    }
    (days, mx)
}

/// Every game row's category descriptor parses.
pub open spec fn games_all_parse(gs: Seq<GameData>) -> bool {
    forall|i: int| 0 <= i < gs.len() ==> spec_extract(#[trigger] gs[i].gamesplayed@) is Some
}

/// The processed game list matches the raw rows one for one.
pub open spec fn games_match(ms: Seq<GameModel>, gs: Seq<GameData>) -> bool {
    &&& ms.len() == gs.len()
    &&& forall|i: int|
        0 <= i < gs.len() ==> (spec_extract(#[trigger] gs[i].gamesplayed@) matches Some(q)
            && ms[i].time_streamed_min == gs[i].streamtime && ms[i].category@ == q.0
            && ms[i].category_image@ == q.1)
}

/// The computed, immutable snapshot of one year's activity.
#[derive(Debug)]
pub struct StreamerModel {
    /// The processed game list, in upstream order.
    pub games: Vec<GameModel>,
    /// Total time streamed across all games.
    pub total_time_min: u64,
    /// Whether any stream happened at all.
    pub at_least_one_stream: bool,
    /// Share of time outside the main category.
    pub variety_percent: Ratio,
    /// Share of time in the main category.
    pub ow_percent: Ratio,
    /// Whether the variety share reaches the 0.30 threshold.
    pub are_we_variety: bool,
    /// Elapsed calendar days without a single stream.
    pub days_ditched: usize,
    /// Calendar days elapsed in the year (its full length for past years).
    pub days_until_now: usize,
    /// `days_ditched / days_until_now`, defined as one when no day elapsed.
    pub percent_ditched: Ratio,
    /// Minutes streamed per day of the year.
    pub days: Vec<u64>,
    /// Largest entry of `days`.
    pub max_streamtime: u64,
    /// Weekday offset of January 1st (days since Monday).
    pub start_of_year_offset: u32,
    /// The resolved calendar year number.
    pub year: i32,
    /// The longest gap without streaming.
    pub longest_ditch: LongestDitch,
}

impl StreamerModel {
    /// Compute a year's snapshot from its game rows and stream sessions
    /// (sessions newest first, as the upstream delivers them), judged at
    /// instant `now`. Fails with `MalformedCategory` exactly when some
    /// game's category descriptor does not parse.
    pub fn create(year: Year, games: GamesResponse, streams: StreamsResponse, now: u64) -> (r:
        Result<StreamerModel, Error>)
        requires
            valid_year(year, now),
            valid_streams(streams.data@),
            sorted_newest_first(streams.data@),
            sum_streamtime(games.data@) <= u64::MAX,
            sum_length_min(streams.data@) <= u64::MAX,
            touched_days(streams.data@).len() <= spec_days_till_today(year, now),
        ensures
            r is Ok <==> games_all_parse(games.data@),
            r matches Err(e) ==> e == Error::MalformedCategory,
            r matches Ok(m) ==> games_match(m.games@, games.data@),
            r matches Ok(m) ==> m.total_time_min == sum_streamtime(games.data@)
                && m.at_least_one_stream == (sum_streamtime(games.data@) > 0),
            r matches Ok(m) ==> m.ow_percent == spec_main_ratio(games.data@)
                && m.variety_percent == spec_variety_ratio(games.data@),
            r matches Ok(m) ==> sum_streamtime(games.data@) == 0 ==> m.ow_percent == (Ratio {
                num: 0,
                den: 1,
            }) && m.variety_percent == (Ratio { num: 0, den: 1 }),
            r matches Ok(m) ==> m.are_we_variety == (10 * m.variety_percent.num >= 3
                * m.variety_percent.den),
            r matches Ok(m) ==> m.days_until_now == spec_days_till_today(year, now)
                && m.days_ditched == spec_days_till_today(year, now) - touched_days(
                streams.data@,
            ).len(),
            r matches Ok(m) ==> m.percent_ditched == (Ratio {
                num: (spec_days_till_today(year, now) - touched_days(streams.data@).len()) as u64,
                den: spec_days_till_today(year, now) as u64,
            }),
            r matches Ok(m) ==> m.days@.len() == days_of_year(spec_year_number(year, now))
                && (forall|d: int|
                0 <= d < m.days@.len() ==> m.days@[d] == day_total(
                    streams.data@,
                    days_before_year(spec_year_number(year, now)) + d,
                )) && m.max_streamtime == max_val(m.days@),
            r matches Ok(m) ==> m.start_of_year_offset == (days_before_year(
                spec_year_number(year, now),
            ) + 3) % 7,
            r matches Ok(m) ==> m.year == spec_year_number(year, now),
            r matches Ok(m) ==> spec_longest_ditch(year, streams.data@, now, m.longest_ditch),
    {
        let ghost gs = games.data@;
        let mut total: u64 = 0;
        let mut ow: u64 = 0;
        let mut i: usize = 0;
        proof {
            assert(gs.subrange(0, 0) =~= Seq::<GameData>::empty());
        }
        while i < games.data.len()
            invariant
                gs == games.data@,
                sum_streamtime(gs) <= u64::MAX,
                0 <= i <= gs.len(),
                total == sum_streamtime(gs.subrange(0, i as int)),
                ow == sum_main_time(gs.subrange(0, i as int)),
            decreases gs.len() - i,
        {
            proof {
                lemma_sum_prefix(gs, i as int + 1);
                lemma_main_le_total(gs.subrange(0, i as int + 1));
                assert(gs.subrange(0, i as int + 1).drop_last() =~= gs.subrange(0, i as int));
                assert(gs.subrange(0, i as int + 1).last() == gs[i as int]);
            }
            let item = &games.data[i];
            if starts_with_main(item.gamesplayed.as_str()) {
                ow = ow + item.streamtime;
            }
            total = total + item.streamtime;
            i = i + 1;
        }
        proof {
            assert(gs.subrange(0, gs.len() as int) =~= gs);
            lemma_main_le_total(gs);
        }
        let (ow_percent, variety_percent) = variety_ratios(total, ow);
        let are_we_variety = variety_percent.at_least_tenths(3);

        let days_until_now = year.days_till_today(now);
        let days_streamed = count(&streams.data);
        let days_ditched = days_until_now - days_streamed;
        let percent = percent_ditched(days_ditched, days_until_now);

        let year_number = year.number(now);
        let (days, max_streamtime) = fill_days(year_number, &streams.data);
        let first = datetime::first_day_number(year_number);
        let start_of_year_offset = ((first + 3) % 7) as u32;
        let longest_ditch = LongestDitch::calculate(year, &streams.data, now);

        let mut models: Vec<GameModel> = Vec::new();
        let mut j: usize = 0;
        while j < games.data.len()
            invariant
                gs == games.data@,
                0 <= j <= gs.len(),
                models@.len() == j,
                forall|j2: int|
                    0 <= j2 < models@.len() ==> (spec_extract(
                        #[trigger] gs[j2].gamesplayed@,
                    ) matches Some(q) && models@[j2].time_streamed_min == gs[j2].streamtime
                        && models@[j2].category@ == q.0 && models@[j2].category_image@ == q.1),
            decreases gs.len() - j,
        {
            let item = &games.data[j];
            match extract_category_and_url(item.gamesplayed.as_str()) {
                Some(pair) => {
                    let (category, category_image) = pair;
                    models.push(
                        GameModel { category, category_image, time_streamed_min: item.streamtime },
                    );
                },
                None => {
                    proof {
                        assert(spec_extract(gs[j as int].gamesplayed@) is None);
                        assert(!games_all_parse(gs));
                    }
                    return Err(Error::MalformedCategory);
                },
            }
            j = j + 1;
        }
        Ok(
            StreamerModel {
                games: models,
                total_time_min: total,
                at_least_one_stream: total > 0,
                ow_percent,
                variety_percent,
                are_we_variety,
                days_ditched,
                days_until_now,
                percent_ditched: percent,
                days,
                max_streamtime,
                start_of_year_offset,
                year: year_number,
                longest_ditch,
            },
        )
    }
}

/// The main-category share the snapshot carries: zero when nothing was
/// streamed at all.
pub open spec fn spec_main_ratio(gs: Seq<GameData>) -> Ratio {
    if sum_streamtime(gs) == 0 {
        Ratio { num: 0, den: 1 }
    } else {
        Ratio { num: sum_main_time(gs) as u64, den: sum_streamtime(gs) as u64 }
    }
}

/// The variety share the snapshot carries: zero when nothing was streamed
/// at all.
pub open spec fn spec_variety_ratio(gs: Seq<GameData>) -> Ratio {
    if sum_streamtime(gs) == 0 {
        Ratio { num: 0, den: 1 }
    } else {
        Ratio {
            num: (sum_streamtime(gs) - sum_main_time(gs)) as u64,
            den: sum_streamtime(gs) as u64,
        }
    }
}

} // verus!
