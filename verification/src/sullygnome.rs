//! The upstream analytics data as the engine models it: per-year game
//! records and stream intervals, plus the page-size/offset arithmetic and
//! the page-merging step of the paginated fetcher. Instants are seconds
//! since the epoch (see `datetime`); the network transport that fills
//! these structures lives outside the library.

use vstd::prelude::*;

use crate::datetime::{self, day_of, valid_time, MAX_TIME_SECS, SECS_PER_DAY};

verus! {

/// One stream session: when it started and how many minutes it ran.
#[derive(Debug, Clone, Copy, PartialEq, Eq, Structural)]
pub struct StreamData {
    /// Start instant, in seconds since the epoch.
    pub start_date_time: u64,
    /// Stream length in minutes.
    pub length: u64,
}

/// One game row: total seconds streamed and the raw pipe-delimited
/// category descriptor.
#[derive(Debug)]
pub struct GameData {
    pub streamtime: u64,
    pub gamesplayed: String,
}

/// One page (or a merged set of pages) of game rows, with the total record
/// count the upstream reported.
#[derive(Debug)]
pub struct GamesResponse {
    pub records_total: i32,
    pub data: Vec<GameData>,
}

/// One page (or a merged set of pages) of stream rows, with the total
/// record count the upstream reported.
#[derive(Debug)]
pub struct StreamsResponse {
    pub records_total: i32,
    pub data: Vec<StreamData>,
}

/// The instant a stream ended.
pub open spec fn end_secs(s: StreamData) -> int {
    s.start_date_time + s.length * 60
}

/// A stream the engine models: it ends before year 10000 (which also keeps
/// every instant and duration within machine range).
pub open spec fn valid_stream(s: StreamData) -> bool {
    s.start_date_time + s.length * 60 < MAX_TIME_SECS
}

/// Every stream of the collection is modelled.
pub open spec fn valid_streams(ss: Seq<StreamData>) -> bool {
    forall|i: int| 0 <= i < ss.len() ==> valid_stream(#[trigger] ss[i])
}

/// The gap between two stream sessions: from the end of the earlier one
/// (by start instant) to the start of the later one. Symmetric in its
/// arguments; negative if the sessions overlap.
pub open spec fn spec_duration_to(a: StreamData, b: StreamData) -> int {
    if a.start_date_time > b.start_date_time {
        a.start_date_time - end_secs(b)
    } else {
        b.start_date_time - end_secs(a)
    }
}

impl StreamData {
    /// The instant this stream ended.
    pub fn end_date_time(&self) -> (t: u64)
        requires
            valid_stream(*self),
        ensures
            t == end_secs(*self),
            valid_time(t),
    {
        self.start_date_time + self.length * 60
    }

    /// The gap between this session and `other`, in seconds; negative if
    /// they overlap.
    pub fn duration_to(&self, other: &StreamData) -> (d: i64)
        requires
            valid_stream(*self),
            valid_stream(*other),
        ensures
            d == spec_duration_to(*self, *other),
    {
        if self.start_date_time > other.start_date_time {
            self.start_date_time as i64 - other.end_date_time() as i64
        } else {
            other.start_date_time as i64 - self.end_date_time() as i64
        }
    }

    /// The gap from the end of this session to the instant `now`, in
    /// seconds; negative if the session is still running at `now`.
    pub fn duration_to_now(&self, now: u64) -> (d: i64)
        requires
            valid_stream(*self),
            valid_time(now),
        ensures
            d == now - end_secs(*self),
    {
        now as i64 - self.end_date_time() as i64
    }

    /// The per-day pieces of this session: one `(day number, whole
    /// minutes)` pair for each calendar day the session covers, split at
    /// midnight boundaries, in day order.
    pub fn day_iter(&self) -> (r: Vec<(u64, u64)>)
        requires
            valid_stream(*self),
        ensures
            r@.len() == days_spanned(*self),
            forall|k: int|
                0 <= k < r@.len() ==> #[trigger] r@[k] == ((day_of(self.start_date_time)
                    + k) as u64, seg_minutes(*self, day_of(self.start_date_time) + k) as u64),
    {
        let ghost s = *self;
        let ghost d0 = day_of(self.start_date_time);
        let end = self.end_date_time();
        let mut cur = self.start_date_time;
        let mut out: Vec<(u64, u64)> = Vec::new();
        proof {
            vstd::arithmetic::div_mod::lemma_fundamental_div_mod(cur as int, 86400);
            vstd::arithmetic::div_mod::lemma_mod_bound(cur as int, 86400);
        }
        while cur < end
            invariant
                valid_stream(s),
                end == end_secs(s),
                s.start_date_time <= cur <= end,
                end < MAX_TIME_SECS,
                d0 == day_of(s.start_date_time),
                out@.len() == 0 ==> cur == s.start_date_time,
                out@.len() > 0 ==> cur == min_int(end as int, 86400 * (d0 + out@.len())),
                out@.len() > 0 ==> 86400 * (d0 + out@.len() - 1) < end,
                out@.len() > 0 ==> s.start_date_time < end,
                forall|k: int|
                    0 <= k < out@.len() ==> #[trigger] out@[k] == ((d0 + k) as u64, seg_minutes(
                        s,
                        d0 + k,
                    ) as u64),
            decreases end - cur,
        {
            let ghost len0 = out@.len() as int;
            let ghost d = d0 + len0;
            proof {
                vstd::arithmetic::div_mod::lemma_fundamental_div_mod(
                    s.start_date_time as int,
                    86400,
                );
                vstd::arithmetic::div_mod::lemma_mod_bound(s.start_date_time as int, 86400);
                if len0 > 0 {
                    vstd::arithmetic::div_mod::lemma_fundamental_div_mod_converse(
                        cur as int,
                        86400,
                        d,
                        0,
                    );
                }
                assert(day_of(cur) == d);
            }
            let eod = datetime::end_of_day(cur);
            let seg_end = if end < eod {
                end
            } else {
                eod
            };
            let day = cur / SECS_PER_DAY;
            let minutes = (seg_end - cur) / 60;
            proof {
                assert(86400 * d <= cur && cur < 86400 * (d + 1));
                assert(seg_lo(s, d) == cur);
                assert(seg_hi(s, d) == seg_end);
                assert(minutes == seg_minutes(s, d));
            }
            out.push((day, minutes));
            cur = seg_end;
        }
        proof {
            if end_secs(s) > s.start_date_time {
                let n = out@.len() as int;
                assert(n > 0);
                assert(86400 * (d0 + n - 1) < end <= 86400 * (d0 + n));
                vstd::arithmetic::div_mod::lemma_fundamental_div_mod_converse(
                    end as int - 1,
                    86400,
                    d0 + n - 1,
                    end - 1 - 86400 * (d0 + n - 1),
                );
                assert(n == days_spanned(s));
            } else {
                assert(out@.len() == 0);
            }
        }
        out
    }
}

/// The capability surface one upstream resource kind (games or streams)
/// offers the paginated fetcher: its reported total record count, its rows,
/// and how further rows are merged in.
pub trait SullyResource: Sized {
    /// The row type of this resource.
    type Item;

    /// The total record count the upstream reported for this resource.
    spec fn spec_records(&self) -> int;

    /// The rows held so far, in order.
    spec fn items(&self) -> Seq<Self::Item>;

    /// Read the reported total record count.
    fn records(&self) -> (r: i32)
        ensures
            r as int == self.spec_records(),
    ;

    /// Append further rows after the ones held so far.
    fn extend(&mut self, items: Vec<Self::Item>)
        ensures
            final (self).items() == old(self).items() + items@,
            final (self).spec_records() == old(self).spec_records(),
    ;

    /// Give up the merged rows.
    fn into_data(self) -> (r: Vec<Self::Item>)
        ensures
            r@ == self.items(),
    ;
}

impl SullyResource for GamesResponse {
    type Item = GameData;

    open spec fn spec_records(&self) -> int {
        self.records_total as int
    }

    open spec fn items(&self) -> Seq<GameData> {
        self.data@
    }

    fn records(&self) -> (r: i32)
        ensures
            r as int == self.spec_records(),
    {
        self.records_total
    }

    fn extend(&mut self, items: Vec<GameData>)
        ensures
            final (self).items() == old(self).items() + items@,
            final (self).spec_records() == old(self).spec_records(),
    {
        let mut items = items;
        self.data.append(&mut items);
    }

    fn into_data(self) -> (r: Vec<GameData>)
        ensures
            r@ == self.items(),
    {
        self.data
    }
}

impl SullyResource for StreamsResponse {
    type Item = StreamData;

    open spec fn spec_records(&self) -> int {
        self.records_total as int
    }

    open spec fn items(&self) -> Seq<StreamData> {
        self.data@
    }

    fn records(&self) -> (r: i32)
        ensures
            r as int == self.spec_records(),
    {
        self.records_total
    }

    fn extend(&mut self, items: Vec<StreamData>)
        ensures
            final (self).items() == old(self).items() + items@,
            final (self).spec_records() == old(self).spec_records(),
    {
        let mut items = items;
        self.data.append(&mut items);
    }

    fn into_data(self) -> (r: Vec<StreamData>)
        ensures
            r@ == self.items(),
    {
        self.data
    }
}

/// The record offsets of the extra pages a paginated fetch must request
/// after page 0, for a reported total of `records_total` records at 100
/// records a page: `100, 200, ...`, one per remaining page. Empty when the
/// first page already covered everything.
pub fn page_offsets(records_total: i32) -> (r: Vec<i32>)
    ensures
        records_total > 100 ==> r@.len() == (records_total + 99) as int / 100 - 1,
        records_total <= 100 ==> r@.len() == 0,
        forall|k: int| 0 <= k < r@.len() ==> #[trigger] r@[k] == 100 * (k + 1),
{
    let mut r: Vec<i32> = Vec::new();
    if records_total <= 100 {
        return r;
    }
    let pages: i64 = (records_total as i64 + 99) / 100;
    proof {
        vstd::arithmetic::div_mod::lemma_fundamental_div_mod(records_total as int + 99, 100);
        vstd::arithmetic::div_mod::lemma_mod_bound(records_total as int + 99, 100);
    }
    let mut n: i64 = 1;
    while n < pages
        invariant
            1 <= n <= pages,
            pages == (records_total + 99) as int / 100,
            100 * pages <= records_total + 99,
            records_total <= i32::MAX,
            r@.len() == n - 1,
            forall|k: int| 0 <= k < r@.len() ==> #[trigger] r@[k] == 100 * (k + 1),
        decreases pages - n,
    {
        r.push((n * 100) as i32);
        n = n + 1;
    }
    r
}

/// Merge the rows of the pages that arrived after page 0 into `base`, in
/// page order. A page that failed to arrive (`None`) is skipped: its rows
/// are simply absent from the merged result.
pub fn merge_pages<T: SullyResource>(base: &mut T, pages: Vec<Option<T>>)
    ensures
        final (base).items() == old(base).items() + merged_items(pages@),
        final (base).spec_records() == old(base).spec_records(),
{
    let ghost all = pages@;
    let ghost base0 = *old(base);
    let mut pages = pages;
    let ghost total = all.len() as int;
    proof {
        assert(all.subrange(0, total) =~= all);
        assert(all.subrange(0, 0) =~= Seq::<Option<T>>::empty());
    }
    while pages.len() > 0
        invariant
            total == all.len(),
            0 <= total - pages@.len() <= total,
            pages@ == all.subrange(total - pages@.len(), total),
            base.items() == base0.items() + merged_items(
                all.subrange(0, total - pages@.len()),
            ),
            base.spec_records() == base0.spec_records(),
        decreases pages@.len(),
    {
        let ghost k = total - pages@.len();
        let ghost before = pages@;
        let page = pages.remove(0);
        proof {
            assert(pages@ =~= all.subrange(k + 1, total)) by {
                assert(pages@ == before.remove(0));
                assert(before.remove(0) =~= all.subrange(k + 1, total));
            }
            assert(all.subrange(0, k + 1).drop_last() =~= all.subrange(0, k));
            assert(all.subrange(0, k + 1).last() == all[k]);
            assert(page == all[k]);
        }
        match page {
            Some(p) => {
                let items = p.into_data();
                base.extend(items);
            },
            None => {},
        }
        proof {
            assert(base.items() == base0.items() + merged_items(all.subrange(0, k + 1)));
        }
    }
    proof {
        assert(all.subrange(0, total) =~= all);
    }
}

/// The rows contributed by a sequence of optional pages, in page order,
/// with missing pages contributing nothing.
pub open spec fn merged_items<T: SullyResource>(ps: Seq<Option<T>>) -> Seq<T::Item>
    decreases ps.len(),
{
    if ps.len() == 0 {
        Seq::empty()
    } else {
        merged_items(ps.drop_last()) + match ps.last() {
            Some(p) => p.items(),
            None => Seq::empty(),
        }
    }
}

/// The smaller of two mathematical integers.
pub open spec fn min_int(a: int, b: int) -> int {
    if a < b {
        a
    } else {
        b
    }
}

/// Where a session's coverage of day `d` begins: the later of the session
/// start and the day's first instant.
pub open spec fn seg_lo(s: StreamData, d: int) -> int {
    if s.start_date_time >= 86400 * d {
        s.start_date_time as int
    } else {
        86400 * d
    }
}

/// Where a session's coverage of day `d` ends: the earlier of the session
/// end and the next day's first instant.
pub open spec fn seg_hi(s: StreamData, d: int) -> int {
    min_int(end_secs(s), 86400 * (d + 1))
}

/// Whole minutes of day `d` that session `s` covers.
pub open spec fn seg_minutes(s: StreamData, d: int) -> int {
    if seg_lo(s, d) < seg_hi(s, d) {
        (seg_hi(s, d) - seg_lo(s, d)) / 60
    } else {
        0
    }
}

/// How many calendar days a session covers, counting a day only if the
/// session spends a positive amount of time in it.
pub open spec fn days_spanned(s: StreamData) -> int {
    if end_secs(s) > s.start_date_time {
        (end_secs(s) - 1) / 86400 + 1 - day_of(s.start_date_time)
    } else {
        0
    }
}

} // verus!
