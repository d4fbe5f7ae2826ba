use arewevarietyyet::datetime::first_day_in_year;
use arewevarietyyet::sullygnome::{
    merge_pages, page_offsets, GameData, GamesResponse, StreamData, StreamsResponse, SullyResource,
};

const DAY: u64 = 86400;

fn games_page(total: i32, n: usize, tag: &str) -> GamesResponse {
    GamesResponse {
        records_total: total,
        data: (0..n)
            .map(|i| GameData {
                streamtime: i as u64,
                gamesplayed: format!("{tag}{i}|https://img/{i}.png|x"),
            })
            .collect(),
    }
}

#[test]
fn a_total_of_250_records_needs_two_extra_pages() {
    // Three fetches in all: offset 0 first, then offsets 100 and 200.
    assert_eq!(page_offsets(250), vec![100, 200]);
}

#[test]
fn small_totals_need_no_extra_pages() {
    assert_eq!(page_offsets(0), Vec::<i32>::new());
    assert_eq!(page_offsets(-7), Vec::<i32>::new());
    assert_eq!(page_offsets(100), Vec::<i32>::new());
    assert_eq!(page_offsets(101), vec![100]);
    assert_eq!(page_offsets(200), vec![100]);
    assert_eq!(page_offsets(201), vec![100, 200]);
}

#[test]
fn a_failed_secondary_page_is_tolerated() {
    // 250 reported records; the offset-200 page failed. The 200 rows of
    // the two successful pages are still merged, in page order.
    let mut base = games_page(250, 100, "a");
    let pages = vec![Some(games_page(250, 100, "b")), None];
    merge_pages(&mut base, pages);
    assert_eq!(base.data.len(), 200);
    assert_eq!(base.records(), 250);
    assert!(base.data[0].gamesplayed.starts_with("a0|"));
    assert!(base.data[100].gamesplayed.starts_with("b0|"));
    assert!(base.data[199].gamesplayed.starts_with("b99|"));
}

#[test]
fn merge_keeps_page_order_for_streams() {
    let base_start = first_day_in_year(2022);
    let mk = |offset: u64, n: u64| StreamsResponse {
        records_total: 230,
        data: (0..n)
            .map(|i| StreamData {
                start_date_time: base_start + (offset + i) * DAY,
                length: 30,
            })
            .collect(),
    };
    let mut base = mk(0, 100);
    let pages = vec![Some(mk(100, 100)), Some(mk(200, 30))];
    merge_pages(&mut base, pages);
    assert_eq!(base.data.len(), 230);
    assert_eq!(base.data[100].start_date_time, base_start + 100 * DAY);
    assert_eq!(base.data[229].start_date_time, base_start + 229 * DAY);
}

#[test]
fn end_and_gaps_of_sessions() {
    let base = first_day_in_year(2022);
    let older = StreamData {
        start_date_time: base,
        length: 60,
    };
    let newer = StreamData {
        start_date_time: base + 2 * 3600,
        length: 30,
    };
    assert_eq!(older.end_date_time(), base + 3600);
    // One hour between the older session's end and the newer's start,
    // whichever way round the two are asked.
    assert_eq!(older.duration_to(&newer), 3600);
    assert_eq!(newer.duration_to(&older), 3600);
    assert_eq!(newer.duration_to_now(base + 3 * 3600), 1800);
    // Overlapping sessions give a negative gap.
    let overlapping = StreamData {
        start_date_time: base + 1800,
        length: 30,
    };
    assert_eq!(older.duration_to(&overlapping), -1800);
}

#[test]
fn day_iter_splits_at_midnight() {
    let base = first_day_in_year(2022);
    let s = StreamData {
        start_date_time: base + 23 * 3600,
        length: 150,
    };
    let day0 = base / DAY;
    assert_eq!(s.day_iter(), vec![(day0, 60), (day0 + 1, 90)]);
}

#[test]
fn day_iter_of_empty_session_is_empty() {
    let s = StreamData {
        start_date_time: first_day_in_year(2022),
        length: 0,
    };
    assert_eq!(s.day_iter(), vec![]);
}

#[test]
fn day_iter_ending_at_midnight_has_no_empty_tail() {
    let base = first_day_in_year(2022);
    let s = StreamData {
        start_date_time: base + 22 * 3600,
        length: 120,
    };
    assert_eq!(s.day_iter(), vec![(base / DAY, 120)]);
}
