//! The snapshot store and request coordinator: a TTL-guarded snapshot of
//! the running year, an indexed store of past years rebuilt wholesale on
//! each bulk load, and the decision logic that tells the surrounding
//! runtime what to fetch for each request. The runtime performs the
//! fetches and hands results back through the `put_*` methods; every
//! mutation happens through one serialized owner of this state.

use vstd::prelude::*;

use crate::datetime::{self, spec_year_of_time, valid_time};
use crate::error::Error;
use crate::model::{StreamerModel, Year};

verus! {

/// How long a current-year snapshot stays fresh, in seconds.
pub const CACHE_TIME_SECS: u64 = 600;

/// The first calendar year tracked historically.
pub const FROM_YEAR: i32 = 2018;

/// A request for a year's snapshot.
#[derive(Debug, Copy, Clone, PartialEq, Eq, Structural)]
pub struct GetData(pub Year);

/// What the surrounding runtime must do to answer a request, as decided
/// by `DataActor::handle`.
#[derive(Debug, Copy, Clone, PartialEq, Eq, Structural)]
pub enum Action {
    /// The cached current-year snapshot is fresh: serve it as is.
    ServeCached,
    /// Fetch and compute the given (current) year, then store it with
    /// `put_current_response` and serve it.
    RefreshCurrent { year: i32 },
    /// Serve the requested past year straight from the store.
    ServeLastYear { year: i32 },
    /// The calendar year advanced: bulk-reload every year in
    /// `years_to_load`, store the results with `put_last_response`, then
    /// serve the requested year.
    BulkReload { year: i32 },
}

/// The snapshot store: the coordinator's entire mutable state.
pub struct DataActor {
    /// The running year's snapshot and when it was fetched, if any.
    pub current_year: Option<(u64, StreamerModel)>,
    /// Past years' snapshots, newest year first, one entry per year.
    pub prev_years: Vec<(i32, StreamerModel)>,
    /// The years of `prev_years`, in the same (descending) order.
    pub years_n: Vec<i32>,
    /// The calendar year the last bulk load was made for.
    pub current_year_n: i32,
}

impl DataActor {
    /// The store's invariant: past years are strictly descending, and
    /// `years_n` mirrors their keys.
    pub open spec fn wf(self) -> bool {
        &&& forall|i: int|
            1 <= i < self.prev_years@.len() ==> (#[trigger] self.prev_years@[i]).0
                < self.prev_years@[i - 1].0
        &&& self.years_n@.len() == self.prev_years@.len()
        &&& forall|i: int|
            0 <= i < self.years_n@.len() ==> #[trigger] self.years_n@[i]
                == self.prev_years@[i].0
    }

    /// Whether the cached current-year snapshot is still fresh at `now`:
    /// it exists and no more than the TTL has passed since its fetch.
    pub open spec fn is_fresh(self, now: u64) -> bool {
        match self.current_year {
            Some(p) => p.0 <= now <= p.0 + CACHE_TIME_SECS,
            None => false,
        }
    }

    /// Whether the store holds a snapshot for past year `year`.
    pub open spec fn has_year(self, year: i32) -> bool {
        exists|i: int| 0 <= i < self.prev_years@.len() && (#[trigger] self.prev_years@[i]).0 == year
    }

    /// An empty store for a process that started in calendar year
    /// `now_year`.
    pub fn new(now_year: i32) -> (s: Self)
        ensures
            s.current_year is None,
            s.prev_years@.len() == 0,
            s.years_n@.len() == 0,
            s.current_year_n == now_year,
            s.wf(),
    {
        DataActor {
            current_year: None,
            prev_years: Vec::new(),
            years_n: Vec::new(),
            current_year_n: now_year,
        }
    }

    /// The cached current-year snapshot, if it is still fresh at `now`;
    /// a stale or missing snapshot yields nothing and the caller must
    /// refresh.
    pub fn try_get_cached(&self, now: u64) -> (r: Option<&StreamerModel>)
        ensures
            (r is Some) == self.is_fresh(now),
            r matches Some(m) ==> self.current_year matches Some(p) && *m == p.1,
    {
        match &self.current_year {
            None => None,
            Some(pair) => {
                if now >= pair.0 && now - pair.0 <= CACHE_TIME_SECS {
                    Some(&pair.1)
                } else {
                    None
                }
            },
        }
    }

    /// The descending list of known past years.
    pub fn known_years(&self) -> (r: &Vec<i32>)
        ensures
            r@ == self.years_n@,
    {
        &self.years_n
    }

    /// Store a freshly computed current-year snapshot, fetched at
    /// `fetched_at`. The snapshot is replaced wholesale; past years are
    /// untouched.
    pub fn put_current_response(&mut self, fetched_at: u64, model: StreamerModel)
        ensures
            final (self).current_year matches Some(p) && p.0 == fetched_at && p.1 == model,
            final (self).prev_years == old(self).prev_years,
            final (self).years_n == old(self).years_n,
            final (self).current_year_n == old(self).current_year_n,
            old(self).wf() ==> final (self).wf(),
    {
        self.current_year = Some((fetched_at, model));
    }

    /// Replace the whole store of past years with the given per-year
    /// snapshots, one entry per year, in any order. The store keeps them
    /// sorted newest year first and derives the known-years list from
    /// them.
    pub fn put_last_response(&mut self, entries: Vec<(i32, StreamerModel)>)
        requires
            forall|i: int, j: int|
                0 <= i < j < entries@.len() ==> (#[trigger] entries@[i]).0 != (
                #[trigger] entries@[j]).0,
        ensures
            final (self).prev_years@.to_multiset() == entries@.to_multiset(),
            final (self).current_year == old(self).current_year,
            final (self).current_year_n == old(self).current_year_n,
            final (self).wf(),
    {
        let ghost es = entries@;
        let mut rest = entries;
        let mut sorted: Vec<(i32, StreamerModel)> = Vec::new();
        proof {
            broadcast use vstd::seq_lib::group_to_multiset_ensures;

            assert(sorted@.to_multiset().add(rest@.to_multiset()) =~= es.to_multiset());
        }
        while rest.len() > 0
            invariant
                sorted@.to_multiset().add(rest@.to_multiset()) == es.to_multiset(),
                forall|i: int|
                    1 <= i < sorted@.len() ==> (#[trigger] sorted@[i]).0 < sorted@[i - 1].0,
                forall|i: int, j: int|
                    0 <= i < j < rest@.len() ==> (#[trigger] rest@[i]).0 != (
                    #[trigger] rest@[j]).0,
                forall|i: int, j: int|
                    0 <= i < sorted@.len() && 0 <= j < rest@.len() ==> (#[trigger] sorted@[i]).0
                        != (#[trigger] rest@[j]).0,
            decreases rest@.len(),
        {
            let ghost rest0 = rest@;
            let ghost sorted0 = sorted@;
            let e = match rest.pop() {
                Some(e) => e,
                None => {
                    proof {
                        assert(false);
                    }
                    return ;
                },
            };
            proof {
                broadcast use vstd::seq_lib::group_to_multiset_ensures;

                assert(e == rest0[rest0.len() - 1]);
                assert(rest@ =~= rest0.remove(rest0.len() - 1));
                assert(rest@.to_multiset() =~= rest0.to_multiset().remove(e));
                assert(rest0.contains(e));
            }
            let mut p: usize = 0;
            while p < sorted.len() && sorted[p].0 >= e.0
                invariant
                    sorted@ == sorted0,
                    0 <= p <= sorted@.len(),
                    forall|q: int| 0 <= q < p ==> (#[trigger] sorted@[q]).0 >= e.0,
                decreases sorted@.len() - p,
            {
                p = p + 1;
            }
            let ghost pos = p as int;
            sorted.insert(p, e);
            proof {
                broadcast use vstd::seq_lib::group_to_multiset_ensures;

                // The inserted element sits at `pos`; everything else
                // kept its relative order.
                assert(sorted@ == sorted0.insert(pos, e));
                assert(sorted@.remove(pos) =~= sorted0);
                assert(sorted@[pos] == e);
                assert(sorted@.remove(pos).to_multiset() =~= sorted@.to_multiset().remove(e));
                assert(sorted@.contains(e));
                assert(sorted@.to_multiset() =~= sorted0.to_multiset().insert(e));
                assert(sorted@.to_multiset().add(rest@.to_multiset()) =~= es.to_multiset());
                // Keys before the insertion point are larger (distinctness
                // turns `>=` into `>`), the one after is smaller.
                assert forall|i: int| 1 <= i < sorted@.len() implies (#[trigger] sorted@[i]).0
                    < sorted@[i - 1].0 by {
                    assert(forall|k: int|
                        0 <= k < sorted0.len() ==> sorted0.contains(#[trigger] sorted0[k]));
                    if i < pos {
                        assert(sorted@[i] == sorted0[i] && sorted@[i - 1] == sorted0[i - 1]);
                    } else if i == pos {
                        assert(sorted@[i - 1] == sorted0[i - 1]);
                        assert(sorted0[i - 1].0 >= e.0);
                        assert(sorted0[i - 1].0 != e.0) by {
                            assert(rest0[rest0.len() - 1] == e);
                        }
                    } else if i == pos + 1 {
                        assert(sorted@[i] == sorted0[i - 1]);
                        assert(!(sorted0[pos].0 >= e.0));
                    } else {
                        assert(sorted@[i] == sorted0[i - 1] && sorted@[i - 1] == sorted0[i - 2]);
                    }
                }
            }
        }
        proof {
            broadcast use vstd::seq_lib::group_to_multiset_ensures;
            broadcast use vstd::multiset::group_multiset_axioms;

            assert(rest@.to_multiset().len() == 0);
            assert(sorted@.to_multiset() =~= es.to_multiset());
        }
        let mut keys: Vec<i32> = Vec::new();
        let mut i: usize = 0;
        while i < sorted.len()
            invariant
                0 <= i <= sorted@.len(),
                keys@.len() == i,
                forall|k: int| 0 <= k < keys@.len() ==> #[trigger] keys@[k] == sorted@[k].0,
            decreases sorted@.len() - i,
        {
            keys.push(sorted[i].0);
            i = i + 1;
        }
        self.prev_years = sorted;
        self.years_n = keys;
    }

    /// The requested past year's snapshot, or `UntrackedYear` if the
    /// store does not know that year.
    pub fn lookup_year(&self, year: i32) -> (r: Result<&StreamerModel, Error>)
        ensures
            (r is Ok) == self.has_year(year),
            r matches Ok(m) ==> exists|i: int|
                0 <= i < self.prev_years@.len() && (#[trigger] self.prev_years@[i]).0 == year && *m
                    == self.prev_years@[i].1,
            r matches Err(e) ==> e == Error::UntrackedYear,
    {
        let mut i: usize = 0;
        while i < self.prev_years.len()
            invariant
                0 <= i <= self.prev_years@.len(),
                forall|j: int| 0 <= j < i ==> (#[trigger] self.prev_years@[j]).0 != year,
            decreases self.prev_years@.len() - i,
        {
            if self.prev_years[i].0 == year {
                return Ok(&self.prev_years[i].1);
            }
            i = i + 1;
        }
        Err(Error::UntrackedYear)
    }

    /// The ascending list of years a bulk load must fetch: from the
    /// fixed first tracked year (or the current year, if that is
    /// earlier) up to, but not including, the current year.
    pub fn years_to_load(&self) -> (r: Vec<i32>)
        ensures
            r@.len() == self.current_year_n - spec_min_i32(FROM_YEAR as int, self.current_year_n as int),
            forall|k: int|
                0 <= k < r@.len() ==> #[trigger] r@[k] == spec_min_i32(
                    FROM_YEAR as int,
                    self.current_year_n as int,
                ) + k,
    {
        let start = if FROM_YEAR < self.current_year_n {
            FROM_YEAR
        } else {
            self.current_year_n
        };
        let mut r: Vec<i32> = Vec::new();
        let mut y = start;
        while y < self.current_year_n
            invariant
                start == spec_min_i32(FROM_YEAR as int, self.current_year_n as int),
                start <= y <= self.current_year_n || (start == self.current_year_n && y == start),
                r@.len() == y - start,
                forall|k: int| 0 <= k < r@.len() ==> #[trigger] r@[k] == start + k,
            decreases self.current_year_n - y,
        {
            r.push(y);
            y = y + 1;
        }
        r
    }

    /// Decide how to answer a request at instant `now`, updating the
    /// recorded calendar year when a rollover is detected on a past-year
    /// request. The store's snapshots themselves are never changed here.
    pub fn handle(&mut self, msg: GetData, now: u64) -> (a: Action)
        requires
            valid_time(now),
        ensures
            final (self).current_year == old(self).current_year,
            final (self).prev_years == old(self).prev_years,
            final (self).years_n == old(self).years_n,
            old(self).wf() ==> final (self).wf(),
            msg.0 is Current ==> final (self).current_year_n == old(self).current_year_n,
            msg.0 is Current ==> a == (if old(self).is_fresh(now) {
                Action::ServeCached
            } else {
                Action::RefreshCurrent { year: spec_year_of_time(now) as i32 }
            }),
            msg.0 matches Year::Last(y) ==> (if old(self).current_year_n == spec_year_of_time(
                now,
            ) {
                a == (Action::ServeLastYear { year: y }) && final (self).current_year_n == old(
                    self,
                ).current_year_n
            } else {
                a == (Action::BulkReload { year: y }) && final (self).current_year_n
                    == spec_year_of_time(now)
            }),
    {
        let GetData(year) = msg;
        match year {
            Year::Current => {
                let fresh = self.try_get_cached(now).is_some();
                if fresh {
                    Action::ServeCached
                } else {
                    let current_year = datetime::year_of_time(now);
                    Action::RefreshCurrent { year: current_year }
                }
            },
            Year::Last(year) => {
                let current_year = datetime::year_of_time(now);
                if self.current_year_n == current_year {
                    Action::ServeLastYear { year }
                } else {
                    // the year changed while we were running
                    self.current_year_n = current_year;
                    Action::BulkReload { year }
                }
            },
        }
    }
}

/// The smaller of two year numbers.
pub open spec fn spec_min_i32(a: int, b: int) -> int {
    if a < b {
        a
    } else {
        b
    }
}

} // verus!
