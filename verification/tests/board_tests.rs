use task_board::board::{AppState, Item, SpanError};
use task_board::deadline::{deadline_from, parse_datetime_from_str, Deadline};
use task_board::lexical::{lex_compare, TextOrder};
use task_board::options::filter_options;
use task_board::order::stable_order;
use task_board::rows::{board_rows, effective_status, same_text};
use task_board::span::{elapsed, Span, Stamp};
use task_board::status::{value_in_status, ItemStatus};
use task_board::text::{decimal_string, display_text, format_duration, highlight_duration};
use task_board::ui::{handle_event, BoardAction, BoardEvent, FilterState, TabState};

fn span(seconds: i64) -> Span {
    Span { seconds, subsec_nanos: 0 }
}

fn item(id: u32, name: &str, title: &str, dead_time: &str, status: ItemStatus, seconds: i64) -> Item {
    Item {
        id,
        name: name.to_string(),
        title: title.to_string(),
        dead_time: dead_time.to_string(),
        status,
        duration: span(seconds),
    }
}

fn stamp(secs: i64) -> Stamp {
    Stamp { secs, nanos: 0 }
}

#[test]
fn status_numbers_round_trip() {
    for s in [ItemStatus::DOING, ItemStatus::DONE, ItemStatus::EXPIRED] {
        assert_eq!(ItemStatus::to_item_status(s.to_usize()), s);
    }
    assert_eq!(ItemStatus::DOING.to_usize(), 1);
    assert_eq!(ItemStatus::DONE.to_usize(), 2);
    assert_eq!(ItemStatus::EXPIRED.to_usize(), 3);
}

#[test]
fn unknown_status_number_reads_as_doing() {
    assert_eq!(ItemStatus::to_item_status(0), ItemStatus::DOING);
    assert_eq!(ItemStatus::to_item_status(4), ItemStatus::DOING);
    assert_eq!(ItemStatus::to_item_status(usize::MAX), ItemStatus::DOING);
}

#[test]
fn status_names_match_tabs() {
    let tabs = TabState::new();
    assert_eq!(tabs.current_tab, 0);
    for s in [ItemStatus::DOING, ItemStatus::DONE, ItemStatus::EXPIRED] {
        assert_eq!(value_in_status(&s), tabs.tab_names[s.to_usize() - 1]);
    }
    assert_eq!(tabs.tab_names, vec!["doing", "done", "expired"]);
    assert_eq!(FilterState::new().selected_name, "All");
}

#[test]
fn decimal_numbers() {
    assert_eq!(decimal_string(0), "0");
    assert_eq!(decimal_string(7), "7");
    assert_eq!(decimal_string(10), "10");
    assert_eq!(decimal_string(1234567890), "1234567890");
    assert_eq!(decimal_string(u64::MAX), u64::MAX.to_string());
}

#[test]
fn duration_formats() {
    assert_eq!(format_duration(span(0)), "expired");
    assert_eq!(format_duration(span(-5)), "expired");
    assert_eq!(format_duration(span(1)), "<1m");
    assert_eq!(format_duration(span(59)), "<1m");
    assert_eq!(format_duration(span(60)), "1m");
    assert_eq!(format_duration(span(120)), "2m");
    assert_eq!(format_duration(span(3600)), "1h");
    assert_eq!(format_duration(span(5 * 3600 + 12 * 60 + 30)), "5h12m");
    assert_eq!(format_duration(span(86400)), "1d");
    assert_eq!(format_duration(span(86400 + 3600 + 60 + 1)), "1d1h");
    assert_eq!(format_duration(span(99 * 86400 + 23 * 3600 + 59 * 60)), "99d23h");
}

#[test]
fn half_a_second_is_not_expired_by_whole_seconds() {
    // chrono keeps whole seconds toward zero: -0.5 s has 0 whole seconds.
    let s = Span { seconds: 0, subsec_nanos: -500_000_000 };
    assert_eq!(format_duration(s), "expired");
    assert_eq!(s.total_nanos(), -500_000_000);
}

#[test]
fn highlight_rules() {
    assert!(!highlight_duration(span(0), 3));
    assert!(!highlight_duration(span(-100), 3));
    assert!(highlight_duration(span(2 * 86400 + 5), 3));
    assert!(!highlight_duration(span(3 * 86400), 3));
    assert!(highlight_duration(span(10), 1));
    assert!(!highlight_duration(span(10), 0));
}

#[test]
fn cell_text_is_shortened() {
    assert_eq!(display_text("short", 8), "short");
    assert_eq!(display_text("exactly8", 8), "exactly8");
    assert_eq!(display_text("nine char", 8), "nine ...");
    assert_eq!(display_text("原神原神原神原神原神", 8), "原神原神原...");
    assert_eq!(display_text("", 0), "");
    assert_eq!(display_text("abcd", 3), "...");
}

#[test]
fn text_order() {
    assert_eq!(lex_compare("a", "b"), TextOrder::Before);
    assert_eq!(lex_compare("b", "a"), TextOrder::After);
    assert_eq!(lex_compare("ab", "ab"), TextOrder::Same);
    assert_eq!(lex_compare("ab", "abc"), TextOrder::Before);
    assert_eq!(lex_compare("", "a"), TextOrder::Before);
    assert_eq!(lex_compare("Z", "a"), TextOrder::Before);
    assert_eq!(lex_compare("é", "z"), TextOrder::After);
    assert!(same_text("x", "x"));
    assert!(!same_text("x", "y"));
}

#[test]
fn parse_with_offset() {
    let d = parse_datetime_from_str("2024-01-02 03:04:05 +0800");
    assert_eq!(d, Some(Deadline::Instant(stamp(1704135845))));
}

#[test]
fn parse_local_date_time() {
    let d = parse_datetime_from_str("2024-01-02 03:04:05");
    assert_eq!(d, Some(Deadline::LocalWallClock(stamp(1704164645))));
}

#[test]
fn parse_local_date() {
    let d = parse_datetime_from_str("2024-01-02");
    assert_eq!(d, Some(Deadline::LocalWallClock(stamp(1704153600))));
}

#[test]
fn parse_rejects_other_text() {
    assert_eq!(parse_datetime_from_str("tomorrow"), None);
    assert_eq!(parse_datetime_from_str(""), None);
    assert_eq!(parse_datetime_from_str("2024-13-01"), None);
}

#[test]
fn deadline_preference() {
    assert_eq!(
        deadline_from(Some((5, 1)), Some((6, 0)), Some(7)),
        Some(Deadline::Instant(Stamp { secs: 5, nanos: 1 }))
    );
    assert_eq!(
        deadline_from(None, Some((6, 0)), Some(7)),
        Some(Deadline::LocalWallClock(stamp(6)))
    );
    assert_eq!(deadline_from(None, None, Some(0)), Some(Deadline::LocalWallClock(stamp(0))));
    assert_eq!(deadline_from(None, None, Some(86400)), Some(Deadline::LocalWallClock(stamp(86400))));
    assert_eq!(deadline_from(None, None, None), None);
}

#[test]
fn elapsed_between_stamps() {
    let later = Stamp { secs: 100, nanos: 0 };
    let earlier = Stamp { secs: 10, nanos: 300_000_000 };
    let s = elapsed(later, earlier).unwrap();
    assert_eq!(s.num_seconds(), 89);
    assert_eq!(s.total_nanos(), 89_700_000_000);
    let back = elapsed(earlier, later).unwrap();
    assert_eq!(back.num_seconds(), -89);
    assert_eq!(back.total_nanos(), -89_700_000_000);
    let tiny = elapsed(Stamp { secs: 10, nanos: 0 }, Stamp { secs: 10, nanos: 1 }).unwrap();
    assert_eq!(tiny.num_seconds(), 0);
    assert_eq!(tiny.total_nanos(), -1);
}

#[test]
fn elapsed_out_of_range() {
    assert_eq!(elapsed(stamp(i64::MAX), stamp(0)), None);
    assert_eq!(elapsed(Stamp { secs: 0, nanos: 1_500_000_000 }, stamp(0)), None);
}

fn loaded() -> Vec<Item> {
    vec![
        item(1, "Genshin", "Daily", "2024-01-03", ItemStatus::DOING, 0),
        item(2, "Arknights", "Event", "2024-01-02", ItemStatus::DOING, 0),
        item(3, "Genshin", "Abyss", "2023-12-31", ItemStatus::DOING, 0),
        item(4, "Zelda", "Shrine", "2024-01-05", ItemStatus::DONE, 0),
    ]
}

fn board() -> AppState {
    let init = stamp(1000);
    // every deadline text is a local date: the local instants are the targets
    let targets = vec![stamp(1000 + 2 * 86400), stamp(1000 + 3600), stamp(500), stamp(1000 + 60)];
    AppState::new(init, loaded(), targets, vec![stamp(0); 4]).unwrap()
}

#[test]
fn new_board_times_items() {
    let b = board();
    assert_eq!(b.init_time, stamp(1000));
    assert!(!b.dirty);
    let secs: Vec<i64> = b.items.iter().map(|i| i.duration.seconds).collect();
    assert_eq!(secs, vec![2 * 86400, 3600, -500, 60]);
    assert_eq!(b.items[2].name, "Genshin");
}

#[test]
fn new_board_fails_on_untimeable_target() {
    let r = AppState::new(
        stamp(0),
        loaded(),
        vec![stamp(1), stamp(i64::MAX), stamp(2), stamp(i64::MIN)],
        vec![stamp(0); 4],
    );
    assert_eq!(r.err(), Some(SpanError { index: 1 }));
}

#[test]
fn refresh_replaces_items_and_clears_dirty() {
    let mut b = board();
    assert!(b.update(2, ItemStatus::DONE));
    assert!(b.dirty);
    // "x" cannot be read: the clock reading stands in for it
    let fresh = vec![item(9, "Zelda", "Boss", "x", ItemStatus::DOING, 0)];
    assert_eq!(b.refresh(stamp(50), fresh, vec![stamp(7)], vec![stamp(80)]), Ok(()));
    assert!(!b.dirty);
    assert_eq!(b.init_time, stamp(50));
    assert_eq!(b.items.len(), 1);
    assert_eq!(b.items[0].duration, span(30));
}

#[test]
fn refresh_failure_keeps_board() {
    let mut b = board();
    let fresh = vec![item(9, "Zelda", "Boss", "x", ItemStatus::DOING, 0)];
    assert_eq!(b.refresh(stamp(50), fresh, vec![stamp(7)], vec![stamp(i64::MAX)]), Err(SpanError { index: 0 }));
    assert_eq!(b.items.len(), 4);
    assert_eq!(b.init_time, stamp(1000));
}

#[test]
fn update_first_matching_item() {
    let mut b = board();
    b.items.push(item(2, "Dup", "Second", "", ItemStatus::DOING, 7));
    assert!(b.update(2, ItemStatus::DONE));
    assert_eq!(b.items[1].status, ItemStatus::DONE);
    assert_eq!(b.items[4].status, ItemStatus::DOING);
    assert!(b.dirty);
}

#[test]
fn update_unknown_id_changes_nothing() {
    let mut b = board();
    assert!(!b.update(42, ItemStatus::DONE));
    assert!(!b.dirty);
    assert!(b.items.iter().all(|i| i.id != 4 || i.status == ItemStatus::DONE));
}

#[test]
fn filter_options_sorted_unique() {
    let b = board();
    assert_eq!(filter_options(&b.items), vec!["All", "Arknights", "Genshin", "Zelda"]);
    assert_eq!(filter_options(&vec![]), vec!["All"]);
}

#[test]
fn stable_order_by_key() {
    assert_eq!(stable_order(&vec![5, 1, 5, 0, 1]), vec![3, 1, 4, 0, 2]);
    assert_eq!(stable_order(&vec![]), Vec::<usize>::new());
    assert_eq!(stable_order(&vec![-3, -3, -3]), vec![0, 1, 2]);
}

#[test]
fn expired_only_when_time_is_up() {
    assert_eq!(effective_status(ItemStatus::DOING, span(0)), ItemStatus::EXPIRED);
    assert_eq!(effective_status(ItemStatus::DOING, span(1)), ItemStatus::DOING);
    assert_eq!(effective_status(ItemStatus::DONE, span(-10)), ItemStatus::DONE);
    assert_eq!(effective_status(ItemStatus::EXPIRED, span(10)), ItemStatus::EXPIRED);
}

#[test]
fn doing_tab_rows() {
    let b = board();
    let rows = board_rows(&b, "All", 0);
    let ids: Vec<u32> = rows.iter().map(|r| r.id).collect();
    assert_eq!(ids, vec![2, 1]);
    assert_eq!(rows[0].detail, "1h");
    assert_eq!(rows[1].detail, "2d");
    assert!(rows.iter().all(|r| r.can_complete && r.status == ItemStatus::DOING));
    assert_eq!(rows[0].index, 1);
}

#[test]
fn expired_and_done_tabs() {
    let b = board();
    let expired = board_rows(&b, "All", 2);
    assert_eq!(expired.len(), 1);
    assert_eq!(expired[0].id, 3);
    assert_eq!(expired[0].detail, "2023-12-31");
    assert!(expired[0].can_complete);
    let done = board_rows(&b, "All", 1);
    assert_eq!(done.len(), 1);
    assert_eq!(done[0].id, 4);
    assert!(!done[0].can_complete);
    assert_eq!(done[0].detail, "2024-01-05");
}

#[test]
fn rows_follow_name_filter() {
    let b = board();
    let rows = board_rows(&b, "Genshin", 0);
    assert_eq!(rows.len(), 1);
    assert_eq!(rows[0].id, 1);
    assert_eq!(board_rows(&b, "Nobody", 0).len(), 0);
    assert_eq!(board_rows(&b, "All", 3).len(), 0);
    assert_eq!(board_rows(&b, "All", usize::MAX).len(), 0);
}

#[test]
fn events_drive_the_board() {
    let mut b = board();
    let mut filter = FilterState::new();
    let mut tabs = TabState::new();
    assert_eq!(handle_event(&mut b, &mut filter, &mut tabs, BoardEvent::TabClicked(2)), BoardAction::Nothing);
    assert_eq!(tabs.current_tab, 2);
    assert_eq!(
        handle_event(&mut b, &mut filter, &mut tabs, BoardEvent::FilterChosen("Genshin".to_string())),
        BoardAction::Nothing
    );
    assert_eq!(filter.selected_name, "Genshin");
    assert_eq!(handle_event(&mut b, &mut filter, &mut tabs, BoardEvent::CompleteClicked(3)), BoardAction::SaveItems);
    assert_eq!(b.items[2].status, ItemStatus::DONE);
    assert_eq!(board_rows(&b, &filter.selected_name, 2).len(), 0);
    assert_eq!(board_rows(&b, &filter.selected_name, 1).len(), 1);
    assert_eq!(handle_event(&mut b, &mut filter, &mut tabs, BoardEvent::CompleteClicked(77)), BoardAction::Nothing);
    assert_eq!(handle_event(&mut b, &mut filter, &mut tabs, BoardEvent::RefreshClicked), BoardAction::ReloadItems);
}

#[test]
fn completing_twice_changes_nothing_more() {
    let mut b = board();
    assert!(b.update(1, ItemStatus::DONE));
    let statuses: Vec<ItemStatus> = b.items.iter().map(|i| i.status).collect();
    assert!(b.update(1, ItemStatus::DONE));
    let again: Vec<ItemStatus> = b.items.iter().map(|i| i.status).collect();
    assert_eq!(statuses, again);
}

#[test]
fn shortened_text_fits_its_cell() {
    for text in ["", "a", "abcdefgh", "abcdefghi", "一二三四五六七八九十"] {
        for max in 3..12 {
            assert!(display_text(text, max).chars().count() <= max);
        }
    }
}

#[test]
fn rows_cover_tab_in_duration_order() {
    let init = stamp(0);
    let loaded = vec![
        item(1, "A", "t1", "d1", ItemStatus::DOING, 0),
        item(2, "B", "t2", "d2", ItemStatus::DOING, 0),
        item(3, "A", "t3", "d3", ItemStatus::DOING, 0),
        item(4, "C", "t4", "d4", ItemStatus::DOING, 0),
    ];
    let nows = vec![stamp(500), stamp(100), stamp(500), stamp(50)];
    let b = AppState::new(init, loaded, vec![stamp(0); 4], nows).unwrap();
    let rows = board_rows(&b, "All", 0);
    let ids: Vec<u32> = rows.iter().map(|r| r.id).collect();
    // shortest first, ties in stored order, every item of the tab once
    assert_eq!(ids, vec![4, 2, 1, 3]);
    assert_eq!(rows[2].detail, "8m");
    let only_a: Vec<u32> = board_rows(&b, "A", 0).iter().map(|r| r.id).collect();
    assert_eq!(only_a, vec![1, 3]);
}

#[test]
fn targets_follow_deadline_texts() {
    let loaded = vec![
        item(1, "A", "t", "1970-01-01 00:10:00 +0000", ItemStatus::DOING, 0),
        item(2, "B", "t", "1970-01-02", ItemStatus::DOING, 0),
        item(3, "C", "t", "1970-01-01 01:00:00", ItemStatus::DOING, 0),
        item(4, "D", "t", "soon", ItemStatus::DOING, 0),
    ];
    let locals = vec![stamp(111), stamp(222), stamp(333), stamp(444)];
    let nows = vec![stamp(555), stamp(666), stamp(777), stamp(888)];
    let b = AppState::new(stamp(100), loaded, locals, nows).unwrap();
    let secs: Vec<i64> = b.items.iter().map(|i| i.duration.seconds).collect();
    // an instant is used as it is; local readings take the local instant;
    // an unreadable text takes the clock reading
    assert_eq!(secs, vec![500, 122, 233, 788]);
}

#[test]
fn refresh_gives_what_new_gives() {
    let mut b = board();
    let locals = vec![stamp(9000), stamp(20), stamp(30), stamp(40)];
    let nows = vec![stamp(1); 4];
    let fresh = AppState::new(stamp(10), loaded(), locals.clone(), nows.clone()).unwrap();
    assert!(b.update(1, ItemStatus::DONE));
    assert_eq!(b.refresh(stamp(10), loaded(), locals, nows), Ok(()));
    assert_eq!(b.init_time, fresh.init_time);
    assert_eq!(b.dirty, fresh.dirty);
    assert_eq!(b.items, fresh.items);
}

#[test]
fn tab_clicks_stay_on_existing_tabs() {
    let mut b = board();
    let mut filter = FilterState::new();
    let mut tabs = TabState::new();
    assert_eq!(handle_event(&mut b, &mut filter, &mut tabs, BoardEvent::TabClicked(1)), BoardAction::Nothing);
    assert_eq!(tabs.current_tab, 1);
    assert_eq!(handle_event(&mut b, &mut filter, &mut tabs, BoardEvent::TabClicked(3)), BoardAction::Nothing);
    assert_eq!(tabs.current_tab, 1);
    assert_eq!(tabs.tab_names.len(), 3);
}

#[test]
fn whole_seconds_round_toward_zero() {
    let ahead = elapsed(Stamp { secs: 11, nanos: 500_000_000 }, stamp(10)).unwrap();
    assert_eq!((ahead.seconds, ahead.subsec_nanos), (1, 500_000_000));
    let behind = elapsed(stamp(10), Stamp { secs: 11, nanos: 500_000_000 }).unwrap();
    assert_eq!((behind.seconds, behind.subsec_nanos), (-1, -500_000_000));
}

#[test]
fn elapsed_covers_chrono_range() {
    assert!(elapsed(stamp(-8_334_601_228_800), stamp(0)).is_some());
    assert_eq!(elapsed(stamp(-8_334_601_228_801), stamp(0)), None);
    assert!(elapsed(stamp(8_210_266_876_799), stamp(0)).is_some());
    assert_eq!(elapsed(stamp(8_210_266_876_800), stamp(0)), None);
    let widest = elapsed(stamp(8_210_266_876_799), stamp(-8_334_601_228_800)).unwrap();
    assert_eq!(widest.seconds, 8_210_266_876_799 + 8_334_601_228_800);
}

#[test]
fn elapsed_accepts_leap_seconds_only_at_minute_end() {
    assert!(elapsed(Stamp { secs: 59, nanos: 1_500_000_000 }, stamp(0)).is_some());
    assert!(elapsed(Stamp { secs: -1, nanos: 1_500_000_000 }, stamp(0)).is_some());
    assert_eq!(elapsed(Stamp { secs: 58, nanos: 1_500_000_000 }, stamp(0)), None);
    assert_eq!(elapsed(Stamp { secs: 59, nanos: 2_000_000_000 }, stamp(0)), None);
}

#[test]
fn date_alone_means_start_of_day() {
    assert_eq!(
        parse_datetime_from_str("1970-01-02"),
        Some(Deadline::LocalWallClock(stamp(86400)))
    );
}
