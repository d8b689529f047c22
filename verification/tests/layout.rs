use herdr_plugins::layout::{
    place_inside, agent_title, connector_points, group_agents, group_node, group_width, worst_status, Group, Rect,
};
use herdr_plugins::status::{Agent, Status, Workspace, Worktree};

fn agent(pane: &str, ws: &str, seq: u64, status: &str) -> Agent {
    Agent {
        pane_id: pane.into(),
        workspace_id: ws.into(),
        agent: "coder".into(),
        terminal_title_stripped: Some(format!("task {pane}")),
        agent_status: status.into(),
        focused: false,
        state_change_seq: seq,
        cwd: "/tmp".into(),
    }
}

fn workspace(id: &str, repo: Option<&str>) -> Workspace {
    Workspace {
        workspace_id: id.into(),
        number: 1,
        label: format!("ws-{id}"),
        focused: false,
        pane_count: 1,
        tab_count: 1,
        agent_status: "idle".into(),
        worktree: repo.map(|r| Worktree {
            repo_key: format!("/repos/{r}/.git"),
            repo_name: r.into(),
            repo_root: format!("/repos/{r}"),
            checkout_path: format!("/repos/{r}"),
            is_linked_worktree: false,
        }),
    }
}

#[test]
fn workspaces_sharing_a_repo_collapse_into_one_group() {
    let ws = vec![
        workspace("w1", Some("alpha")),
        workspace("w2", Some("alpha")),
        workspace("w3", None),
    ];
    let agents = vec![
        agent("w1:p1", "w1", 1, "idle"),
        agent("w2:p1", "w2", 2, "working"),
        agent("w3:p1", "w3", 3, "idle"),
    ];
    let groups = group_agents(&agents, &ws);
    assert_eq!(groups.len(), 2, "two repo groups expected");
    // Sorted by size, so the shared repo leads with both of its agents.
    assert_eq!(groups[0].label, "alpha");
    assert_eq!(groups[0].agents.len(), 2);
}

#[test]
fn standalone_workspaces_are_labelled_by_workspace_and_missing_ones_by_a_dash() {
    let ws = vec![workspace("w1", None)];
    let agents = vec![agent("w1:p1", "w1", 1, "idle"), agent("w9:p1", "w9", 2, "idle")];
    let groups = group_agents(&agents, &ws);
    assert_eq!(groups.len(), 2);
    assert_eq!(groups[0].label, "ws-w1");
    assert_eq!(groups[1].label, "—");
}

#[test]
fn equal_sized_groups_keep_first_appearance_order() {
    let ws = vec![
        workspace("w1", Some("alpha")),
        workspace("w2", Some("beta")),
        workspace("w3", Some("beta")),
        workspace("w4", Some("gamma")),
    ];
    let agents = vec![
        agent("a", "w1", 1, "idle"),
        agent("b", "w4", 2, "idle"),
        agent("c", "w2", 3, "idle"),
        agent("d", "w3", 4, "idle"),
    ];
    let groups = group_agents(&agents, &ws);
    let labels: Vec<&str> = groups.iter().map(|g| g.label.as_str()).collect();
    assert_eq!(labels, vec!["beta", "alpha", "gamma"]);
    assert_eq!(groups[0].agents[0].pane_id, "c");
    assert_eq!(groups[0].agents[1].pane_id, "d");
    let total: usize = groups.iter().map(|g| g.agents.len()).sum();
    assert_eq!(total, agents.len());
}

#[test]
fn group_shows_the_most_urgent_status_inside_it() {
    let g = Group {
        label: "alpha".into(),
        agents: vec![agent("w1:p1", "w1", 1, "idle"), agent("w2:p1", "w2", 2, "blocked")],
    };
    let r = Rect { x: 1, y: 2, w: 10, h: 3 };
    let node = group_node(&g, r);
    assert_eq!(node.status, Status::Blocked);
    assert_eq!(node.agent_count, 2);
    assert_eq!(node.rect, r);
    assert_eq!(worst_status(&[]), Status::Unknown);
    assert_eq!(worst_status(&[agent("a", "w", 0, "done"), agent("b", "w", 0, "working")]), Status::Done);
}

#[test]
fn group_width_is_label_plus_frame_within_bounds() {
    assert_eq!(group_width("abc"), 10);
    assert_eq!(group_width("rating-processors"), 23);
    assert_eq!(group_width(&"x".repeat(60)), 34);
}

#[test]
fn titles_fall_back_to_the_agent_name() {
    let mut a = agent("p", "w", 0, "idle");
    a.terminal_title_stripped = Some("◐ Sync configs ".into());
    assert_eq!(agent_title(&a), "Sync configs");
    a.terminal_title_stripped = Some("◐◑".into());
    assert_eq!(agent_title(&a), "coder");
    a.terminal_title_stripped = None;
    assert_eq!(agent_title(&a), "coder");
}

#[test]
fn overlap_respects_clearance() {
    let a = Rect { x: 0, y: 0, w: 4, h: 2 };
    let b = Rect { x: 4, y: 0, w: 4, h: 2 };
    assert!(!a.overlaps(&b, 0));
    assert!(a.overlaps(&b, 1));
    assert!(a.overlaps(&a, 0));
    assert_eq!(Rect { x: 10, y: 4, w: 7, h: 3 }.center(), (13, 5));
}

#[test]
fn connectors_step_along_the_longer_axis_and_clip_to_the_area() {
    let area = Rect { x: 0, y: 0, w: 20, h: 10 };
    assert_eq!(connector_points((0, 0), (4, 2), area), vec![(1, 0), (2, 1), (3, 1)]);
    // Leftward and upward steps round toward the start.
    assert_eq!(connector_points((4, 2), (0, 0), area), vec![(3, 2), (2, 1), (1, 1)]);
    assert!(connector_points((3, 3), (3, 3), area).is_empty());
    let small = Rect { x: 0, y: 0, w: 2, h: 10 };
    assert_eq!(connector_points((0, 0), (4, 2), small), vec![(1, 0)]);
}

#[test]
fn boxes_are_pulled_inside_the_viewport() {
    let area = Rect { x: 2, y: 1, w: 40, h: 20 };
    assert_eq!(place_inside(0, 0, 10, 4, area), Rect { x: 2, y: 1, w: 10, h: 4 });
    assert_eq!(place_inside(100, 100, 10, 4, area), Rect { x: 32, y: 17, w: 10, h: 4 });
    assert_eq!(place_inside(5, 6, 10, 4, area), Rect { x: 5, y: 6, w: 10, h: 4 });
    // Wider than the area: pinned to its corner.
    assert_eq!(place_inside(9, 9, 50, 4, area).x, 2);
}
