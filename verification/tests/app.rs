use herdr_plugins::app::{is_pr_item, App, Key, Step, FULL_REFRESH_MS, LIVE_REFRESH_MS};
use herdr_plugins::model::{Collector, Doc, Item, Pr, Prs, Totals};
use herdr_plugins::ui::loops_height;
use ratatui::layout::{Constraint, Layout, Rect};

fn item(severity: u8, kind: &str, text: &str) -> Item {
    Item {
        severity,
        kind: kind.into(),
        text: text.into(),
        ..Default::default()
    }
}

fn doc_with(severities: &[u8]) -> Doc {
    Doc {
        schema: 1,
        net: true,
        attention: severities
            .iter()
            .enumerate()
            .map(|(i, s)| item(*s, &format!("k{i}"), &format!("item {i}")))
            .collect(),
        ..Default::default()
    }
}

fn app_with(severities: &[u8]) -> App {
    let mut app = App::new(Collector::for_test(), 0);
    app.apply(doc_with(severities), 0);
    app
}

#[test]
fn the_cursor_cannot_leave_the_list() {
    let mut app = app_with(&[1, 2, 3]);
    app.move_cursor(-5, 10);
    assert_eq!(app.cursor, 0);
    app.move_cursor(50, 10);
    assert_eq!(app.cursor, 2);
}

#[test]
fn an_empty_list_swallows_movement() {
    let mut app = app_with(&[]);
    app.move_cursor(1, 10);
    assert_eq!(app.cursor, 0);
    assert_eq!(app.offset, 0);
}

#[test]
fn hiding_housekeeping_pulls_the_cursor_back_into_range() {
    let mut app = app_with(&[1, 4, 4, 4]);
    app.move_cursor(3, 10);
    assert_eq!(app.cursor, 3);
    app.max_severity = 3;
    app.clamp();
    // Only the severity-1 item survives the filter.
    assert_eq!(app.visible(), 1);
    assert_eq!(app.cursor, 0);
}

#[test]
fn a_shorter_document_does_not_strand_the_cursor() {
    let mut app = app_with(&[1, 1, 1, 1, 1]);
    app.move_cursor(4, 10);
    app.apply(doc_with(&[1, 1]), 0);
    assert_eq!(app.cursor, 1);
}

#[test]
fn an_offline_pass_carries_pull_requests_forward() {
    let mut app = App::new(Collector::for_test(), 0);
    app.apply(
        Doc {
            schema: 1,
            net: true,
            totals: Totals { prs_open: 3, ..Default::default() },
            prs: Prs {
                mine: vec![Pr { number: 1, name: "r".into(), title: "t".into() }],
                ..Default::default()
            },
            attention: vec![item(1, "pr-ci-red", "r#1 red"), item(3, "dirty", "r dirty")],
            ..Default::default()
        },
        0,
    );
    app.apply(
        Doc {
            schema: 1,
            net: false,
            attention: vec![item(3, "dirty", "r dirty")],
            ..Default::default()
        },
        0,
    );
    let doc = app.doc().unwrap();
    assert!(app.prs_carried);
    assert_eq!(doc.totals.prs_open, 3);
    assert_eq!(doc.prs.mine.len(), 1);
    // The PR item is back, and the ordering by severity still holds.
    assert_eq!(doc.attention.len(), 2);
    assert_eq!(doc.attention[0].kind, "pr-ci-red");
}

#[test]
fn a_networked_pass_replaces_carried_pull_requests() {
    let mut app = App::new(Collector::for_test(), 0);
    app.apply(
        Doc {
            schema: 1,
            net: true,
            totals: Totals { prs_open: 3, ..Default::default() },
            attention: vec![item(1, "pr-ci-red", "old")],
            ..Default::default()
        },
        0,
    );
    app.apply(
        Doc {
            schema: 1,
            net: true,
            totals: Totals { prs_open: 0, ..Default::default() },
            ..Default::default()
        },
        0,
    );
    assert!(!app.prs_carried);
    assert_eq!(app.doc().unwrap().totals.prs_open, 0);
    assert!(app.doc().unwrap().attention.is_empty());
}

#[test]
fn two_offline_passes_in_a_row_do_not_duplicate_pull_request_items() {
    let mut app = App::new(Collector::for_test(), 0);
    app.apply(
        Doc {
            schema: 1,
            net: true,
            attention: vec![item(1, "pr-ci-red", "red")],
            ..Default::default()
        },
        0,
    );
    for _ in 0..3 {
        app.apply(Doc { schema: 1, net: false, ..Default::default() }, 0);
    }
    // Carrying forward from a carried-forward document must not stack up.
    assert_eq!(app.doc().unwrap().attention.len(), 1);
}

#[test]
fn carried_items_merge_by_severity_then_kind_then_text() {
    let mut app = App::new(Collector::for_test(), 0);
    app.apply(
        Doc {
            net: true,
            attention: vec![item(2, "review-requested", "b"), item(1, "pr-conflict", "z"), item(3, "dirty", "x")],
            ..Default::default()
        },
        0,
    );
    app.apply(
        Doc {
            net: false,
            attention: vec![item(2, "agent-blocked", "q"), item(1, "session-unanswered", "a")],
            ..Default::default()
        },
        0,
    );
    let kinds: Vec<&str> = app.doc().unwrap().attention.iter().map(|i| i.kind.as_str()).collect();
    assert_eq!(
        kinds,
        vec!["pr-conflict", "session-unanswered", "agent-blocked", "review-requested"]
    );
}

#[test]
fn pr_items_are_recognised_by_kind() {
    for kind in ["pr-ci-red", "pr-conflict", "pr-stale", "review-requested"] {
        assert!(
            is_pr_item(&Item {
                kind: kind.into(),
                ..Default::default()
            }),
            "{kind}"
        );
    }
    for kind in ["dirty", "unpushed", "agent-blocked", "session-unanswered"] {
        assert!(
            !is_pr_item(&Item {
                kind: kind.into(),
                ..Default::default()
            }),
            "{kind}"
        );
    }
}

#[test]
fn a_shortened_list_does_not_leave_the_panel_scrolled_past_its_end() {
    // The regression: `clamp` fixed the cursor but not the offset, so the
    // panel rendered an empty window while its border still reported a count.
    let mut app = app_with(&[1; 30]);
    app.move_cursor(29, 6);
    assert!(
        app.offset > 5,
        "expected to be scrolled, got {}",
        app.offset
    );
    app.apply(doc_with(&[1, 1, 1]), 0);
    assert!(
        app.offset < app.visible(),
        "offset {} is past the {} remaining items",
        app.offset,
        app.visible()
    );
    assert_eq!(app.cursor, 2);
}

#[test]
fn hiding_a_band_also_pulls_the_offset_back() {
    let mut app = app_with(&[1, 4, 4, 4, 4, 4, 4, 4, 4, 4]);
    app.move_cursor(9, 4);
    app.max_severity = 3;
    app.clamp();
    assert_eq!(app.visible(), 1);
    assert_eq!(app.offset, 0);
}

#[test]
fn a_failed_collection_moves_both_refresh_clocks() {
    // Otherwise a full pass is due forever and the loop respawns the
    // collector on every tick.
    let mut app = App::new(Collector::for_test(), 0);
    assert!(app.last_full().is_none());
    app.mark_attempted(5_000);
    assert!(app.last_full().is_some());
    assert!(app.age(5_000) < 1_000);
}

#[test]
fn a_failure_is_shown_and_ends_the_collection() {
    let mut app = App::new(Collector::for_test(), 0);
    assert!(app.start());
    assert!(!app.start(), "a second collection must not start while one runs");
    app.failed("boom".to_string(), 7_000);
    assert!(!app.collecting);
    assert_eq!(app.error.as_deref(), Some("boom"));
    assert_eq!(app.last_full(), Some(7_000));
    app.lost_collection();
    assert_eq!(app.error.as_deref(), Some("the collector thread died"));
}

#[test]
fn a_cached_document_does_not_reset_the_full_refresh_clock() {
    // The first paint accepts a 15-minute-old cache. Treating that as "just
    // refreshed" would defer the real pass by another five.
    let mut app = App::new(Collector::for_test(), 0);
    app.apply(Doc { schema: 1, net: true, from_cache: true, ..Default::default() }, 0);
    assert!(
        app.last_full().is_none(),
        "a cached document must still leave a full pass due"
    );
    app.apply(Doc { schema: 1, net: true, ..Default::default() }, 0);
    assert!(app.last_full().is_some());
}

#[test]
fn cadences_pick_a_full_pass_then_an_offline_one() {
    let mut app = App::new(Collector::for_test(), 0);
    assert_eq!(app.due(0), Some(true));
    app.collected(Doc { net: true, ..Default::default() }, 1_000);
    assert_eq!(app.due(1_000), None);
    assert_eq!(app.due(1_000 + LIVE_REFRESH_MS), Some(false));
    assert_eq!(app.due(1_000 + FULL_REFRESH_MS), Some(true));
    app.net = false;
    assert_eq!(app.due(1_000 + FULL_REFRESH_MS), Some(false));
    app.start();
    assert_eq!(app.due(1_000 + FULL_REFRESH_MS), None);
}

#[test]
fn keys_move_toggle_and_collect() {
    let mut app = app_with(&[1, 2, 3, 4, 4]);
    assert_eq!(app.handle_key(Key::Bottom, 10), Step::Stay);
    assert_eq!(app.cursor, 4);
    app.handle_key(Key::Top, 10);
    assert_eq!(app.cursor, 0);
    app.handle_key(Key::HalfPageDown, 4);
    assert_eq!(app.cursor, 2);
    app.handle_key(Key::ToggleHousekeeping, 10);
    assert_eq!(app.max_severity, 3);
    assert_eq!(app.visible(), 3);
    assert_eq!(
        app.handle_key(Key::ToggleNet, 10),
        Step::Collect { max_age: 0, net: false }
    );
    assert_eq!(app.handle_key(Key::Refresh, 10), Step::Stay);
    assert_eq!(app.handle_key(Key::Quit, 10), Step::Quit);
}

#[test]
fn the_loops_height_matches_the_real_layout() {
    // Guards against the drawing's constraints and this shortcut drifting.
    let area = Rect::new(0, 0, 100, 30);
    let rows = Layout::vertical([
        Constraint::Length(1),
        Constraint::Min(6),
        Constraint::Length(1),
    ])
    .split(area);
    let cols = Layout::horizontal([Constraint::Percentage(60), Constraint::Percentage(40)])
        .split(rows[1]);
    assert_eq!(
        loops_height(area.height),
        cols[0].height.saturating_sub(2) as usize
    );
}

#[test]
fn a_networked_pass_restarts_the_full_refresh_clock() {
    let mut app = App::new(Collector::for_test(), 0);
    assert!(app.start());
    app.collected(doc_with(&[1]), 1_000);
    assert!(!app.collecting);
    assert_eq!(app.last_full(), Some(1_000));
    assert_eq!(app.due(1_000 + LIVE_REFRESH_MS - 1), None);
    assert_eq!(app.due(1_000 + FULL_REFRESH_MS - 1), Some(false));
    assert_eq!(app.due(1_000 + FULL_REFRESH_MS), Some(true));
    let mut offline = doc_with(&[]);
    offline.net = false;
    assert!(app.start());
    app.collected(offline, 50_000);
    assert_eq!(app.last_full(), Some(1_000));
}

#[test]
fn narrowing_the_bands_through_the_setter_then_clamping() {
    let mut app = app_with(&[1, 4, 4, 4]);
    app.move_cursor(3, 10);
    app.set_max_severity(3);
    assert_eq!(app.cursor, 3);
    app.clamp();
    assert_eq!(app.cursor, 0);
    assert_eq!(app.visible(), 1);
}
