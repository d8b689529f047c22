use herdr_plugins::model::Severity;
use herdr_plugins::ui::{scroll_offset, severity_color, status_color, Rgb};

#[test]
fn an_empty_list_needs_no_scrolling() {
    assert_eq!(scroll_offset(0, 10, 0, 0), 0);
    assert_eq!(scroll_offset(5, 0, 3, 0), 0);
}

#[test]
fn a_list_that_fits_never_scrolls() {
    for cursor in 0..4 {
        assert_eq!(scroll_offset(4, 10, cursor, 0), 0, "cursor {cursor}");
    }
}

#[test]
fn moving_past_the_bottom_scrolls_by_one() {
    // height 5 → 4 usable rows, so cursor 4 is the first to push the window.
    assert_eq!(scroll_offset(20, 5, 3, 0), 0);
    assert_eq!(scroll_offset(20, 5, 4, 0), 1);
    assert_eq!(scroll_offset(20, 5, 5, 1), 2);
}

#[test]
fn moving_above_the_window_scrolls_back() {
    assert_eq!(scroll_offset(20, 5, 2, 6), 2);
}

#[test]
fn the_last_item_is_always_reachable() {
    // The regression this guards: an offset clamped to `total - height`
    // while the window is `height - 1` tall leaves the final row unseen.
    let (total, height) = (20, 5);
    let offset = scroll_offset(total, height, total - 1, 0);
    let usable = height - 1;
    assert!(
        offset + usable >= total,
        "offset {offset} cannot reach {total}"
    );
}

#[test]
fn the_offset_never_leaves_the_list_short() {
    // Scrolling to the end and then shrinking the list must not leave a
    // window pointing past it.
    assert_eq!(scroll_offset(3, 10, 0, 90), 0);
}

#[test]
fn a_one_row_panel_still_shows_the_cursor() {
    assert_eq!(scroll_offset(10, 1, 7, 0), 7);
    assert_eq!(scroll_offset(10, 2, 9, 0), 9);
    assert_eq!(scroll_offset(10, 3, 5, usize::MAX), 5);
}

#[test]
fn severity_colours_are_distinct_per_band() {
    let colors = [
        severity_color(Severity::Blocked),
        severity_color(Severity::Waiting),
        severity_color(Severity::Loose),
        severity_color(Severity::Tidy),
    ];
    for (i, a) in colors.iter().enumerate() {
        for b in colors.iter().skip(i + 1) {
            assert_ne!(a, b, "two bands share a colour");
        }
    }
}

#[test]
fn agent_colours_agree_with_the_severity_palette() {
    // A blocked agent and a blocked loop are the same red, deliberately.
    assert_eq!(status_color("blocked"), severity_color(Severity::Blocked));
    assert_eq!(status_color("done"), severity_color(Severity::Waiting));
    assert_eq!(status_color("nonsense"), severity_color(Severity::Tidy));
}

#[test]
fn the_palette_is_herdrs() {
    assert_eq!(status_color("blocked"), Rgb { r: 247, g: 118, b: 142 });
    assert_eq!(status_color("idle"), Rgb { r: 66, g: 190, b: 101 });
}
