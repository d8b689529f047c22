use herdr_plugins::app::App;
use herdr_plugins::model::{Agent, Checkout, Collector, Commit, Doc, Item, Lookup, Repo, Totals, Window};
use herdr_plugins::panels::{
    agent_lines, brief_lines, daybook_fits, footer, header, loop_lines, panel_title, repo_lines, Line, Span,
};
use herdr_plugins::text::{decimal, pad_left, pad_right, signed_decimal};
use herdr_plugins::ui::Rgb;

fn texts(spans: &[Span]) -> Vec<String> {
    spans.iter().map(|s| s.text.clone()).collect()
}

fn line_text(line: &Line) -> String {
    line.spans.iter().map(|s| s.text.as_str()).collect()
}

fn item(severity: u8, text: &str, hint: &str) -> Item {
    Item {
        severity,
        kind: "k".into(),
        text: text.into(),
        hint: hint.into(),
        ..Default::default()
    }
}

fn app_showing(doc: Doc) -> App {
    let mut app = App::new(Collector::for_test(), 0);
    app.apply(doc, 0);
    app
}

#[test]
fn decimals_and_padding_match_the_formatter() {
    assert_eq!(decimal(0), "0");
    assert_eq!(decimal(7), "7");
    assert_eq!(decimal(1234), "1234");
    assert_eq!(decimal(u64::MAX), u64::MAX.to_string());
    assert_eq!(signed_decimal(-1), "-1");
    assert_eq!(signed_decimal(i64::MIN), i64::MIN.to_string());
    assert_eq!(signed_decimal(42), "42");
    assert_eq!(pad_right("ab", 5), format!("{:<5}", "ab"));
    assert_eq!(pad_right("abcdef", 3), "abcdef");
    assert_eq!(pad_right("é", 3), format!("{:<3}", "é"));
    assert_eq!(pad_left("7", 2), format!("{:>2}", "7"));
    assert_eq!(pad_left("123", 2), "123");
}

#[test]
fn panel_titles_carry_their_count() {
    assert_eq!(panel_title("open loops", Some(9)), " open loops 9 ");
    assert_eq!(panel_title("moved", None), " moved ");
}

#[test]
fn the_header_waits_for_a_document_then_summarises_it() {
    let app = App::new(Collector::for_test(), 0);
    assert_eq!(texts(&header(&app)), vec![" daybook ", "· …"]);

    let app = app_showing(Doc {
        schema: 1,
        net: true,
        window: Window { label: "since yesterday".into(), ..Default::default() },
        totals: Totals {
            commits: 22,
            repos_touched: 3,
            sessions: 7,
            prs_open: 5,
            prs_merged: 2,
            ..Default::default()
        },
        ..Default::default()
    });
    let spans = header(&app);
    assert_eq!(
        texts(&spans),
        vec![
            " daybook ",
            "· since yesterday",
            "   22 commits in 3 repos · 7 sessions · 5 PRs open",
            " · 2 merged",
        ]
    );
    assert!(spans[0].bold);
    assert_eq!(spans[3].color, Rgb { r: 66, g: 190, b: 101 });
}

#[test]
fn the_footer_reports_age_filters_and_notes() {
    let mut app = app_showing(Doc {
        schema: 2,
        net: true,
        from_cache: true,
        cache_age_seconds: 40,
        errors: vec!["gh timed out".into()],
        ..Default::default()
    });
    app.max_severity = 3;
    app.net = false;
    assert_eq!(
        texts(&footer(&app, 5_999, 80)),
        vec![
            " q close  r refresh  j/k move  a all  n offline ",
            "· 5s ago ",
            "· housekeeping hidden ",
            "· offline ",
            "· cached 40s ",
            "· 1 notes ",
            "· schema 2 ≠ 1 ",
        ]
    );
    app.collecting = true;
    assert_eq!(footer(&app, 0, 80)[1].text, "· collecting… ");
}

#[test]
fn an_error_replaces_the_whole_footer() {
    let mut app = App::new(Collector::for_test(), 0);
    app.error = Some("the collector thread died".into());
    let spans = footer(&app, 0, 10);
    assert_eq!(texts(&spans), vec![" the colle… — q close, r retry"]);
    assert_eq!(spans[0].color, Rgb { r: 247, g: 118, b: 142 });
}

#[test]
fn only_the_selected_row_expands_its_hint() {
    let app = app_showing(Doc {
        schema: 1,
        net: true,
        attention: vec![
            item(1, "api#88 failing", "gh pr checks 88"),
            item(2, "w8 finished", "look at w8"),
        ],
        ..Default::default()
    });
    let lines = loop_lines(&app, 40, 10);
    let shown: Vec<String> = lines.iter().map(line_text).collect();
    assert_eq!(
        shown,
        vec!["!! api#88 failing", "     → gh pr checks 88", " ! w8 finished"]
    );
    assert!(lines[0].spans[1].bold);
    assert!(!lines[2].spans[1].bold);
    assert_eq!(lines[0].spans[0].color, Rgb { r: 247, g: 118, b: 142 });
}

#[test]
fn the_hint_is_dropped_when_no_row_is_left_for_it() {
    let app = app_showing(Doc {
        schema: 1,
        net: true,
        attention: vec![item(1, "only", "would not fit")],
        ..Default::default()
    });
    let lines = loop_lines(&app, 40, 1);
    assert_eq!(lines.len(), 1);
    assert_eq!(line_text(&lines[0]), "!! only");
}

#[test]
fn loop_rows_are_cut_to_the_panel() {
    let app = app_showing(Doc {
        schema: 1,
        net: true,
        attention: vec![item(3, "a rather long description", "")],
        ..Default::default()
    });
    let lines = loop_lines(&app, 10, 5);
    assert_eq!(line_text(&lines[0]), " · a rath…");
}

#[test]
fn repositories_show_counts_then_busy_checkouts_then_the_newest_subject() {
    let app = app_showing(Doc {
        schema: 1,
        net: true,
        repos: vec![
            Repo {
                name: "ledger".into(),
                commits: vec![Commit { sha: "a".into(), subject: "fix: rounding".into() }],
                dirty: 2,
                checkouts: vec![
                    Checkout { branch: "main".into(), dirty: 2, ..Default::default() },
                    Checkout { branch: "feat".into(), is_worktree: true, ..Default::default() },
                ],
                ..Default::default()
            },
            Repo { name: "quiet".into(), ..Default::default() },
        ],
        ..Default::default()
    });
    let lines = repo_lines(&app, 30, 10);
    let shown: Vec<String> = lines.iter().map(line_text).collect();
    assert_eq!(shown, vec!["ledger 1● 2✎", "  main 2✎", "  fix: rounding"]);
}

#[test]
fn a_lone_main_checkout_gets_no_row_and_names_yield_to_counts() {
    let app = app_showing(Doc {
        schema: 1,
        net: true,
        repos: vec![Repo {
            name: "rating-processors".into(),
            dirty: 12,
            ahead: 3,
            checkouts: vec![Checkout { branch: "main".into(), dirty: 12, ahead: 3, ..Default::default() }],
            ..Default::default()
        }],
        ..Default::default()
    });
    let lines = repo_lines(&app, 14, 10);
    let shown: Vec<String> = lines.iter().map(line_text).collect();
    assert_eq!(shown, vec!["rating… 12✎ 3↑"]);
}

#[test]
fn agents_show_glyph_pane_and_title() {
    let app = app_showing(Doc {
        schema: 1,
        net: true,
        agents: vec![
            Agent { pane_id: "w8:p1".into(), status: "done".into(), title: "index backfill".into(), agent: "coder".into() },
            Agent { pane_id: "w3".into(), status: "working".into(), title: String::new(), agent: "coder".into() },
        ],
        ..Default::default()
    });
    let lines = agent_lines(&app, 40, 10);
    let shown: Vec<String> = lines.iter().map(line_text).collect();
    assert_eq!(shown, vec!["● w8:p1 index backfill", "✳ w3    coder"]);
    assert_eq!(lines[0].spans[0].color, Rgb { r: 255, g: 158, b: 100 });
    assert_eq!(agent_lines(&app, 40, 1).len(), 1);
}

#[test]
fn the_plain_frame_lists_every_section() {
    let doc = Doc {
        schema: 1,
        net: true,
        totals: Totals { commits: 1, repos_touched: 1, agents: 1, ..Default::default() },
        attention: vec![item(2, "w8 finished", "look"), item(4, "tidy", "")],
        repos: vec![Repo {
            name: "ledger".into(),
            commits: vec![Commit::default()],
            ahead: 1,
            ..Default::default()
        }],
        agents: vec![Agent { pane_id: "w8".into(), status: "idle".into(), title: "t".into(), agent: "a".into() }],
        errors: vec!["gh missing".into()],
        ..Default::default()
    };
    let lines = brief_lines(&doc, 3);
    assert_eq!(
        lines,
        vec![
            "daybook — (no window) · 1 commits in 1 repos · 0 sessions · 0 PRs open · 1 agents".to_string(),
            String::new(),
            "open loops (1)".into(),
            "   ! w8 finished".into(),
            "       → look".into(),
            String::new(),
            "moved (1)".into(),
            format!("  {:<28} 1● 1↑", "ledger"),
            String::new(),
            "agents (1)".into(),
            "  ✓ idle     w8     t".into(),
            String::new(),
            "notes".into(),
            "  - gh missing".into(),
        ]
    );
}

#[test]
fn an_empty_plain_frame_says_nothing_is_waiting() {
    let lines = brief_lines(&Doc::default(), 4);
    assert_eq!(lines[2], "open loops (0)");
    assert_eq!(lines[3], "  nothing waiting on you");
    assert_eq!(lines.len(), 8);
}

#[test]
fn panels_never_overflow_their_rows() {
    let app = app_showing(Doc {
        schema: 1,
        net: true,
        attention: (0..30).map(|i| item(1, &format!("item {i}"), "hint")).collect(),
        repos: (0..10)
            .map(|i| Repo {
                name: format!("r{i}"),
                commits: vec![Commit::default()],
                checkouts: vec![
                    Checkout { branch: "a".into(), dirty: 1, ..Default::default() },
                    Checkout { branch: "b".into(), dirty: 1, ..Default::default() },
                ],
                ..Default::default()
            })
            .collect(),
        ..Default::default()
    });
    for height in 0..12 {
        assert!(loop_lines(&app, 40, height).len() <= height);
        assert!(repo_lines(&app, 40, height).len() <= height);
    }
}

#[test]
fn collector_candidates_go_from_beside_the_binary_to_home() {
    let all = Collector::candidates(Some("/opt/plugins/daybook"), Some("/home/me"));
    assert_eq!(
        all,
        vec![
            "/opt/plugins/daybook/../../tools/daybook/daybook-collect.py".to_string(),
            "/home/me/.local/bin/daybook-collect".into(),
            "/home/me/Projects/herdr-plugins/tools/daybook/daybook-collect.py".into(),
        ]
    );
    assert!(Collector::candidates(None, None).is_empty());
    assert_eq!(Collector::candidates(None, Some("/h")).len(), 2);
}

#[test]
fn a_failed_collection_names_the_script_code_and_last_line() {
    let c = Collector::at("/x/daybook-collect".into());
    assert_eq!(
        c.failure_message(Some(1), "Traceback:\n  File x\nValueError: nope\n\n"),
        "/x/daybook-collect exited 1: ValueError: nope"
    );
    assert_eq!(c.failure_message(None, ""), "/x/daybook-collect exited -1: no output");
}

#[test]
fn the_daybook_needs_room() {
    assert!(daybook_fits(54, 12));
    assert!(!daybook_fits(53, 40));
    assert!(!daybook_fits(200, 11));
}

#[test]
fn the_collector_lookup_prefers_the_explicit_path_then_the_first_existing_candidate() {
    let c = |p: &str, e: bool| (p.to_string(), e);
    match Collector::lookup(Some(c("/x/collect.py", true)), &[]) {
        Lookup::Found(found) => {
            assert_eq!(found.display(), "/x/collect.py");
            assert!(found.via_python());
        }
        other => panic!("{other:?}"),
    }
    match Collector::lookup(Some(c("/x/missing", false)), &[c("/y/collect", true)]) {
        Lookup::ExplicitMissing(p) => assert_eq!(p, "/x/missing"),
        other => panic!("{other:?}"),
    }
    match Collector::lookup(None, &[c("/a", false), c("/b/collect", true), c("/c", true)]) {
        Lookup::Found(found) => assert_eq!(found.display(), "/b/collect"),
        other => panic!("{other:?}"),
    }
    assert!(matches!(Collector::lookup(None, &[c("/a", false)]), Lookup::TryPath));
}
