use arewevarietyyet::data_actor::{Action, DataActor, GetData, CACHE_TIME_SECS, FROM_YEAR};
use arewevarietyyet::datetime::first_day_in_year;
use arewevarietyyet::error::Error;
use arewevarietyyet::model::{StreamerModel, Year};
use arewevarietyyet::sullygnome::{GamesResponse, StreamsResponse};

const DAY: u64 = 86400;

/// A minimal snapshot for year `year`, computed from empty data.
fn snapshot(year: i32) -> StreamerModel {
    let games = GamesResponse {
        records_total: 0,
        data: vec![],
    };
    let streams = StreamsResponse {
        records_total: 0,
        data: vec![],
    };
    let now = first_day_in_year(year + 1) + 40 * DAY;
    StreamerModel::create(Year::Last(year), games, streams, now).unwrap()
}

#[test]
fn cached_snapshot_is_served_within_the_ttl() {
    let mut store = DataActor::new(2022);
    let t0 = first_day_in_year(2022) + 100 * DAY;
    store.put_current_response(t0, snapshot(2021));
    // 9 minutes 59 seconds later: still fresh, no refetch.
    assert!(store.try_get_cached(t0 + 9 * 60 + 59).is_some());
    assert_eq!(store.handle(GetData(Year::Current), t0 + 9 * 60 + 59), Action::ServeCached);
    // 10 minutes 1 second later: stale, a fresh fetch-compute cycle runs.
    assert!(store.try_get_cached(t0 + 10 * 60 + 1).is_none());
    assert_eq!(
        store.handle(GetData(Year::Current), t0 + 10 * 60 + 1),
        Action::RefreshCurrent { year: 2022 }
    );
    assert_eq!(CACHE_TIME_SECS, 600);
}

#[test]
fn empty_store_asks_for_a_refresh() {
    let mut store = DataActor::new(2022);
    let now = first_day_in_year(2022) + DAY;
    assert!(store.try_get_cached(now).is_none());
    assert_eq!(
        store.handle(GetData(Year::Current), now),
        Action::RefreshCurrent { year: 2022 }
    );
}

#[test]
fn past_years_are_kept_newest_first_and_looked_up() {
    let mut store = DataActor::new(2022);
    // Any input order is accepted; the store sorts newest first.
    store.put_last_response(vec![
        (2020, snapshot(2020)),
        (2019, snapshot(2019)),
        (2021, snapshot(2021)),
    ]);
    assert_eq!(store.known_years(), &vec![2021, 2020, 2019]);
    assert_eq!(store.lookup_year(2020).unwrap().year, 2020);
    assert_eq!(store.lookup_year(2018).err(), Some(Error::UntrackedYear));
}

#[test]
fn bulk_reload_replaces_the_store_wholesale() {
    let mut store = DataActor::new(2022);
    store.put_last_response(vec![(2018, snapshot(2018)), (2019, snapshot(2019))]);
    store.put_last_response(vec![(2021, snapshot(2021))]);
    assert_eq!(store.known_years(), &vec![2021]);
    assert!(store.lookup_year(2018).is_err());
}

#[test]
fn a_tracked_year_is_served_without_reloading() {
    let mut store = DataActor::new(2022);
    store.put_last_response(vec![(2021, snapshot(2021))]);
    let now = first_day_in_year(2022) + 50 * DAY;
    assert_eq!(
        store.handle(GetData(Year::Last(2021)), now),
        Action::ServeLastYear { year: 2021 }
    );
}

#[test]
fn year_rollover_triggers_a_bulk_reload() {
    let mut store = DataActor::new(2022);
    store.put_last_response(vec![(2021, snapshot(2021))]);
    // The calendar moved on to 2023 since the last bulk load.
    let now = first_day_in_year(2023) + 2 * DAY;
    assert_eq!(
        store.handle(GetData(Year::Last(2021)), now),
        Action::BulkReload { year: 2021 }
    );
    // The recorded year advanced; the next request needs no reload.
    assert_eq!(
        store.handle(GetData(Year::Last(2021)), now),
        Action::ServeLastYear { year: 2021 }
    );
}

#[test]
fn years_to_load_covers_first_tracked_year_through_last_year() {
    let store = DataActor::new(2022);
    assert_eq!(store.years_to_load(), vec![2018, 2019, 2020, 2021]);
    assert_eq!(FROM_YEAR, 2018);
    let early = DataActor::new(2017);
    assert_eq!(early.years_to_load(), Vec::<i32>::new());
}
