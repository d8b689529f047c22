use herdr_plugins::status::{Agent, Client, Status, Workspace, Worktree, settle_reply, check_reply_line, CallError, ApiError, SocketError};
use herdr_plugins::text::clean_title;

#[test]
fn parses_every_status_the_schema_declares() {
    for (s, want) in [
        ("idle", Status::Idle),
        ("working", Status::Working),
        ("blocked", Status::Blocked),
        ("done", Status::Done),
        ("unknown", Status::Unknown),
    ] {
        assert_eq!(Status::parse(s), want, "parsing {s}");
    }
}

#[test]
fn unrecognised_status_degrades_to_unknown() {
    assert_eq!(Status::parse("teleporting"), Status::Unknown);
    assert_eq!(Status::parse(""), Status::Unknown);
}

#[test]
fn attention_order_puts_stalled_agents_first() {
    let mut v = vec![Status::Idle, Status::Blocked, Status::Working, Status::Done];
    v.sort_by_key(|s| s.priority());
    assert_eq!(
        v,
        vec![Status::Blocked, Status::Done, Status::Working, Status::Idle]
    );
}

#[test]
fn strips_agent_spinner_frames() {
    assert_eq!(
        clean_title("◑ Sync chezmoi configs"),
        "Sync chezmoi configs"
    );
    assert_eq!(
        clean_title("✳ Find unreviewed processors"),
        "Find unreviewed processors"
    );
    assert_eq!(clean_title("Already clean"), "Already clean");
}

#[test]
fn leaves_titles_that_are_only_decoration_empty() {
    // Callers fall back to the agent name when this returns empty.
    assert_eq!(clean_title("◑◒◓"), "");
    assert_eq!(clean_title(""), "");
}

#[test]
fn clean_title_trims_trailing_space_and_keeps_inner_punctuation() {
    assert_eq!(clean_title("  ⠋  fix: the bug!  "), "fix: the bug!");
    assert_eq!(clean_title("42 tasks"), "42 tasks");
}

#[test]
fn labels_round_trip_through_parse() {
    for s in [Status::Blocked, Status::Done, Status::Working, Status::Idle, Status::Unknown] {
        assert_eq!(Status::parse(s.label()), s);
    }
}

#[test]
fn glyphs_match_the_sidebar() {
    assert_eq!(Status::Blocked.glyph(), "⚠");
    assert_eq!(Status::Done.glyph(), "●");
    assert_eq!(Status::Working.glyph(), "✳");
    assert_eq!(Status::Idle.glyph(), "✓");
    assert_eq!(Status::Unknown.glyph(), "·");
}

#[test]
fn priorities_are_exact() {
    assert_eq!(Status::Blocked.priority(), 0);
    assert_eq!(Status::Done.priority(), 1);
    assert_eq!(Status::Working.priority(), 2);
    assert_eq!(Status::Idle.priority(), 3);
    assert_eq!(Status::Unknown.priority(), 4);
}

#[test]
fn explicit_socket_path_wins() {
    let c = Client::resolve(Some("/run/herdr.sock".to_string()), Some("/home/me".to_string())).unwrap();
    assert_eq!(c.socket(), "/run/herdr.sock");
}

#[test]
fn socket_falls_back_to_home() {
    let c = Client::resolve(None, Some("/home/me".to_string())).unwrap();
    assert_eq!(c.socket(), "/home/me/.config/herdr/herdr.sock");
}

#[test]
fn no_socket_without_environment() {
    assert!(matches!(Client::resolve(None, None), Err(SocketError::NoEnvironment)));
}

#[test]
fn blank_replies_are_rejected() {
    assert!(matches!(check_reply_line("  \n"), Err(CallError::EmptyReply)));
    assert!(check_reply_line("{\"result\":{}}\n").is_ok());
}

#[test]
fn an_error_object_wins_over_a_result() {
    let r = settle_reply(
        Some(ApiError { code: "bad".into(), message: "nope".into() }),
        Some(1),
    );
    match r {
        Err(CallError::Failed(e)) => {
            assert_eq!(e.code, "bad");
            assert_eq!(e.message, "nope");
        }
        _ => panic!("expected the error object"),
    }
    assert!(matches!(settle_reply::<i32>(None, None), Err(CallError::NoResult)));
    assert_eq!(settle_reply(None, Some(7)).unwrap(), 7);
}

#[test]
fn clones_are_exact() {
    let w = Workspace {
        workspace_id: "w1".into(),
        number: 3,
        label: "main".into(),
        focused: true,
        pane_count: 2,
        tab_count: 1,
        agent_status: "idle".into(),
        worktree: Some(Worktree {
            repo_key: "/r/.git".into(),
            repo_name: "r".into(),
            repo_root: "/r".into(),
            checkout_path: "/r".into(),
            is_linked_worktree: true,
        }),
    };
    let c = w.clone();
    assert_eq!(c.workspace_id, "w1");
    assert_eq!(c.worktree.unwrap().repo_key, "/r/.git");
    let a = Agent {
        pane_id: "p".into(),
        workspace_id: "w1".into(),
        agent: "coder".into(),
        terminal_title_stripped: Some("t".into()),
        agent_status: "done".into(),
        focused: false,
        state_change_seq: 9,
        cwd: "/".into(),
    };
    assert_eq!(a.clone().state_change_seq, 9);
}

#[test]
fn cleaning_a_clean_title_changes_nothing() {
    for raw in ["◑ Sync chezmoi configs  ", "✳ Find unreviewed processors", "◑◒◓", "  plain  ", ""] {
        let once = clean_title(raw);
        assert_eq!(clean_title(&once), once);
    }
}
