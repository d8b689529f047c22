use herdr_plugins::reorder::{
    cursor_down, cursor_up, decide, footer_span, listing_lines, shift_target, start_row, workspace_rows, OrderKey,
    OrderStep,
};
use herdr_plugins::status::Workspace;

#[test]
fn moves_within_bounds() {
    assert_eq!(shift_target(0, 1, 4), Some(1));
    assert_eq!(shift_target(3, -1, 4), Some(2));
    assert_eq!(shift_target(2, 1, 4), Some(3));
}

#[test]
fn refuses_to_run_off_either_end() {
    assert_eq!(shift_target(0, -1, 4), None, "already at the top");
    assert_eq!(shift_target(3, 1, 4), None, "already at the bottom");
}

#[test]
fn handles_degenerate_lists() {
    assert_eq!(shift_target(0, 1, 0), None, "empty list");
    assert_eq!(shift_target(0, 1, 1), None, "single item cannot move");
    assert_eq!(shift_target(0, -1, 1), None);
}

#[test]
fn the_cursor_stops_at_both_ends() {
    assert_eq!(cursor_down(2, 3), 2);
    assert_eq!(cursor_down(0, 3), 1);
    assert_eq!(cursor_down(0, 0), 0);
    assert_eq!(cursor_up(0), 0);
    assert_eq!(cursor_up(5), 4);
}

fn ws(id: &str, focused: bool) -> Workspace {
    Workspace {
        workspace_id: id.into(),
        number: 0,
        label: id.into(),
        focused,
        pane_count: 1,
        tab_count: 1,
        agent_status: String::new(),
        worktree: None,
    }
}

#[test]
fn the_cursor_starts_on_the_focused_workspace() {
    assert_eq!(start_row(&[ws("a", false), ws("b", true), ws("c", true)]), 1);
    assert_eq!(start_row(&[ws("a", false)]), 0);
    assert_eq!(start_row(&[]), 0);
}

#[test]
fn keys_decide_the_next_step() {
    assert_eq!(decide(OrderKey::ShiftDown, 1, 3), OrderStep::Move { from: 1, to: 2 });
    assert_eq!(decide(OrderKey::ShiftUp, 0, 3), OrderStep::Stay);
    assert_eq!(decide(OrderKey::Down, 2, 3), OrderStep::Cursor(2));
    assert_eq!(decide(OrderKey::Focus, 1, 3), OrderStep::FocusAndQuit(1));
    assert_eq!(decide(OrderKey::Focus, 0, 0), OrderStep::Quit);
    assert_eq!(decide(OrderKey::Quit, 0, 3), OrderStep::Quit);
}

fn row(id: &str, label: &str, status: &str, tabs: u32) -> Workspace {
    Workspace {
        workspace_id: id.into(),
        number: 1,
        label: label.into(),
        focused: false,
        pane_count: 1,
        tab_count: tabs,
        agent_status: status.into(),
        worktree: None,
    }
}

#[test]
fn rows_mark_the_cursor_and_align_their_columns() {
    let rows = vec![row("w1", "api", "blocked", 2), row("w2", "dotfiles", "idle", 1)];
    let out = workspace_rows(&rows, 1);
    assert_eq!(out.len(), 2);
    assert!(!out[0].selected);
    assert!(out[1].selected);
    let first: String = out[0].line.spans.iter().map(|s| s.text.as_str()).collect();
    assert_eq!(first, format!("   ⚠ {:<28} {:<4} {} tab(s)", "api", "w1", 2));
    let second: String = out[1].line.spans.iter().map(|s| s.text.as_str()).collect();
    assert_eq!(second, format!(" ▸ ✓ {:<28} {:<4} {} tab(s)", "dotfiles", "w2", 1));
    assert_eq!(out[0].line.spans[1].color, herdr_plugins::ui::Rgb { r: 247, g: 118, b: 142 });
}

#[test]
fn the_footer_shows_the_last_error_or_the_keys() {
    assert_eq!(footer_span(Some("no such workspace")).text, " no such workspace");
    assert_eq!(
        footer_span(None).text,
        " j/k move cursor · J/K move workspace · ⏎ focus · q quit"
    );
}

#[test]
fn the_plain_listing_numbers_each_workspace() {
    let rows = vec![row("w1", "api", "idle", 1), row("w22", "dotfiles", "idle", 1)];
    assert_eq!(
        listing_lines(&rows),
        vec![format!("{:>2}  {:<6} {}", 0, "w1", "api"), format!("{:>2}  {:<6} {}", 1, "w22", "dotfiles")]
    );
}
