use herdr_plugins::layout::{group_agents, GroupNode, Rect};
use herdr_plugins::map_frame::{agent_box, group_box, legend, map_fits, map_lines, map_step, MapKey, MapStep};
use herdr_plugins::status::{Agent, Status, Workspace, Worktree};
use herdr_plugins::ui::Rgb;

fn agent(pane: &str, ws: &str, status: &str, title: Option<&str>) -> Agent {
    Agent {
        pane_id: pane.into(),
        workspace_id: ws.into(),
        agent: "coder".into(),
        terminal_title_stripped: title.map(|t| t.to_string()),
        agent_status: status.into(),
        focused: false,
        state_change_seq: 1,
        cwd: "/tmp".into(),
    }
}

fn workspace(id: &str, repo: Option<&str>) -> Workspace {
    Workspace {
        workspace_id: id.into(),
        number: 1,
        label: format!("ws-{id}"),
        focused: false,
        pane_count: 1,
        tab_count: 1,
        agent_status: "idle".into(),
        worktree: repo.map(|r| Worktree {
            repo_key: format!("/repos/{r}/.git"),
            repo_name: r.into(),
            repo_root: format!("/repos/{r}"),
            checkout_path: format!("/repos/{r}"),
            is_linked_worktree: false,
        }),
    }
}

#[test]
fn the_legend_counts_agents_by_status() {
    let ws = vec![workspace("w1", Some("alpha")), workspace("w2", None)];
    let agents = vec![
        agent("w1:p1", "w1", "blocked", None),
        agent("w1:p2", "w1", "working", None),
        agent("w2:p1", "w2", "blocked", None),
        agent("w2:p2", "w2", "teleporting", None),
    ];
    let groups = group_agents(&agents, &ws);
    let spans = legend(&groups, 3);
    let texts: Vec<&str> = spans.iter().map(|s| s.text.as_str()).collect();
    assert_eq!(
        texts,
        vec![" 4 agents ", "⚠ 2 ", "● 0 ", "✳ 1 ", "✓ 0 ", "· updated 3s ago — q close, r refresh"]
    );
    assert_eq!(spans[1].color, Rgb { r: 247, g: 118, b: 142 });
}

#[test]
fn a_group_box_shows_its_label_and_size() {
    let node = GroupNode {
        label: "rating-processors".into(),
        rect: Rect { x: 0, y: 0, w: 10, h: 3 },
        agent_count: 2,
        status: Status::Idle,
    };
    let spans = group_box(&node);
    assert_eq!(spans[0].text, "ratin…");
    assert!(spans[0].bold);
    assert_eq!(spans[1].text, " 2");
}

#[test]
fn agent_boxes_highlight_the_focused_agent() {
    let b = agent_box(Status::Working, false, "w3", "Sync chezmoi and herdr configs", 14, 200);
    assert_eq!(b.border, Rgb { r: 224, g: 175, b: 104 });
    assert!(!b.thick);
    let first: String = b.lines[0].spans.iter().map(|s| s.text.as_str()).collect();
    assert_eq!(first, "✳ w3");
    assert_eq!(b.lines[1].spans[0].text, "Sync chezmo…");
    assert_eq!(b.lines[1].spans[0].color, Rgb { r: 200, g: 200, b: 200 });
    let f = agent_box(Status::Working, true, "w3", "x", 14, 150);
    assert!(f.thick);
    assert_eq!(f.border, Rgb { r: 224, g: 224, b: 224 });
}

#[test]
fn the_plain_map_lists_groups_and_their_agents() {
    let ws = vec![workspace("w1", Some("alpha")), workspace("w2", None)];
    let agents = vec![
        agent("w1:p1", "w1", "idle", Some("◑ Sync configs")),
        agent("w2:p1", "w2", "done", None),
    ];
    let groups = group_agents(&agents, &ws);
    assert_eq!(
        map_lines(&groups),
        vec![
            "2 agent(s) across 2 group(s)".to_string(),
            String::new(),
            "alpha (1)".into(),
            format!("  ✓ {:<7} {:<10} {}", "idle", "w1", "Sync configs"),
            String::new(),
            "ws-w2 (1)".into(),
            format!("  ● {:<7} {:<10} {}", "done", "w2", "coder"),
            String::new(),
        ]
    );
}

#[test]
fn keys_and_the_clock_decide_the_next_map_step() {
    assert_eq!(map_step(Some(MapKey::Quit), 0), MapStep::Quit);
    assert_eq!(map_step(Some(MapKey::Refresh), 10), MapStep::Fetch);
    assert_eq!(map_step(None, 2000), MapStep::Fetch);
    assert_eq!(map_step(Some(MapKey::Other), 5000), MapStep::Fetch);
    assert_eq!(map_step(None, 0), MapStep::Wait { millis: 250 });
    assert_eq!(map_step(None, 1900), MapStep::Wait { millis: 100 });
    assert_eq!(map_step(Some(MapKey::Other), 1750), MapStep::Wait { millis: 250 });
    assert!(map_fits(30, 6));
    assert!(!map_fits(29, 40));
    assert!(!map_fits(120, 5));
}

#[test]
fn grouping_keeps_every_agent_exactly_once() {
    let ws = vec![workspace("w1", Some("alpha")), workspace("w2", Some("alpha")), workspace("w3", None)];
    let agents = vec![
        agent("w3:p1", "w3", "idle", None),
        agent("w1:p1", "w1", "idle", None),
        agent("w2:p1", "w2", "done", None),
        agent("w9:p1", "w9", "working", None),
    ];
    let groups = group_agents(&agents, &ws);
    let mut seen: Vec<String> = groups.iter().flat_map(|g| g.agents.iter().map(|a| a.pane_id.clone())).collect();
    seen.sort();
    let mut all: Vec<String> = agents.iter().map(|a| a.pane_id.clone()).collect();
    all.sort();
    assert_eq!(seen, all);
    assert_eq!(groups.len(), 3);
    // The busiest first, then equal-sized groups by first appearance.
    let labels: Vec<&str> = groups.iter().map(|g| g.label.as_str()).collect();
    assert_eq!(labels, vec!["alpha", "ws-w3", "—"]);
}
