use herdr_plugins::model::{truncate, Checkout, Collector, Commit, Doc, Item, Repo, Severity};
use herdr_plugins::text::first_line;

#[test]
fn severity_bands_cover_every_number_the_collector_can_emit() {
    assert_eq!(Severity::parse(1), Severity::Blocked);
    assert_eq!(Severity::parse(2), Severity::Waiting);
    assert_eq!(Severity::parse(3), Severity::Loose);
    assert_eq!(Severity::parse(4), Severity::Tidy);
}

#[test]
fn unexpected_severities_degrade_to_the_quietest_band() {
    // A future collector adding severity 5 must not shout.
    assert_eq!(Severity::parse(9), Severity::Tidy);
    assert_eq!(Severity::parse(255), Severity::Tidy);
    // Zero would be louder than blocked, which no band is.
    assert_eq!(Severity::parse(0), Severity::Blocked);
}

#[test]
fn every_mark_is_two_columns_wide() {
    for s in [
        Severity::Blocked,
        Severity::Waiting,
        Severity::Loose,
        Severity::Tidy,
    ] {
        assert_eq!(s.mark().chars().count(), 2, "{s:?}");
    }
}

#[test]
fn marks_are_the_band_symbols() {
    assert_eq!(Severity::Blocked.mark(), "!!");
    assert_eq!(Severity::Waiting.mark(), " !");
    assert_eq!(Severity::Loose.mark(), " ·");
    assert_eq!(Severity::Tidy.mark(), "  ");
}

fn item(severity: u8, text: &str) -> Item {
    Item {
        severity,
        text: text.into(),
        ..Default::default()
    }
}

#[test]
fn loops_filter_by_severity_band() {
    let doc = Doc {
        attention: vec![item(1, "a"), item(3, "b"), item(4, "c")],
        ..Default::default()
    };
    assert_eq!(doc.loops(4).len(), 3);
    assert_eq!(doc.loops(3).len(), 2);
    assert_eq!(doc.loops(1).len(), 1);
}

#[test]
fn loops_keep_document_order() {
    let doc = Doc {
        attention: vec![item(3, "x"), item(1, "y"), item(4, "z"), item(2, "w")],
        ..Default::default()
    };
    let texts: Vec<&str> = doc.loops(3).iter().map(|i| i.text.as_str()).collect();
    assert_eq!(texts, vec!["x", "y", "w"]);
    assert_eq!(doc.loops_count(3), 3);
}

#[test]
fn an_empty_document_has_nothing_to_show() {
    let doc = Doc::default();
    assert_eq!(doc.schema, 0);
    assert!(doc.attention.is_empty());
    assert!(doc.active_repos().is_empty());
}

#[test]
fn a_repo_is_active_when_anything_moved_in_it() {
    assert!(!Repo::default().active());
    assert!(
        Repo {
            dirty: 1,
            ..Default::default()
        }
        .active()
    );
    assert!(
        Repo {
            ahead: 2,
            ..Default::default()
        }
        .active()
    );
    assert!(
        Repo {
            commits: vec![Commit::default()],
            ..Default::default()
        }
        .active()
    );
}

#[test]
fn active_repos_keep_document_order() {
    let doc = Doc {
        repos: vec![
            Repo { name: "a".into(), dirty: 1, ..Default::default() },
            Repo { name: "b".into(), ..Default::default() },
            Repo { name: "c".into(), ahead: 1, ..Default::default() },
        ],
        ..Default::default()
    };
    let names: Vec<&str> = doc.active_repos().iter().map(|r| r.name.as_str()).collect();
    assert_eq!(names, vec!["a", "c"]);
}

#[test]
fn busy_checkouts_skip_the_clean_ones_and_lead_with_the_dirtiest() {
    let repo = Repo {
        checkouts: vec![
            Checkout {
                branch: "main".into(),
                ..Default::default()
            },
            Checkout {
                branch: "feat/a".into(),
                dirty: 1,
                ..Default::default()
            },
            Checkout {
                branch: "feat/b".into(),
                dirty: 9,
                ..Default::default()
            },
        ],
        ..Default::default()
    };
    let busy = repo.busy_checkouts();
    assert_eq!(busy.len(), 2);
    assert_eq!(busy[0].branch, "feat/b");
}

#[test]
fn busy_checkouts_break_ties_by_unpushed_then_input_order() {
    let co = |b: &str, dirty: usize, ahead: usize| Checkout {
        branch: b.into(),
        dirty,
        ahead,
        ..Default::default()
    };
    let repo = Repo {
        checkouts: vec![co("p", 2, 0), co("q", 2, 5), co("r", 0, 1), co("s", 2, 0), co("t", 0, 0)],
        ..Default::default()
    };
    let order: Vec<&str> = repo.busy_checkouts().iter().map(|c| c.branch.as_str()).collect();
    assert_eq!(order, vec!["q", "p", "s", "r"]);
}

#[test]
fn truncate_never_splits_a_character() {
    assert_eq!(truncate("héllo wörld", 6), "héllo…");
    assert_eq!(truncate("short", 20), "short");
    assert_eq!(truncate("abc", 1), "…");
    assert_eq!(truncate("", 4), "");
}

#[test]
fn truncate_to_zero_columns_leaves_nothing() {
    assert_eq!(truncate("abc", 0), "");
    assert_eq!(truncate("", 0), "");
    assert_eq!(truncate("abc", 3), "abc");
    assert_eq!(truncate("abcd", 3), "ab…");
    assert_eq!(truncate(&truncate("abcdef", 4), 4), "abc…");
}

#[test]
fn a_python_path_is_run_through_the_interpreter() {
    assert!(Collector::at("/x/daybook-collect.py".to_string()).via_python());
    assert!(!Collector::at("/x/daybook-collect".to_string()).via_python());
}

#[test]
fn the_collector_command_carries_age_and_network() {
    let py = Collector::at("/x/daybook-collect.py".to_string());
    let cmd = py.command(900, true);
    assert_eq!(cmd.program, "python3");
    assert_eq!(cmd.args, vec!["/x/daybook-collect.py", "--max-age", "900"]);
    let bin = Collector::at("/x/daybook-collect".to_string());
    let cmd = bin.command(0, false);
    assert_eq!(cmd.program, "/x/daybook-collect");
    assert_eq!(cmd.args, vec!["--max-age", "0", "--no-net", "--no-cache"]);
    assert_eq!(bin.display(), "/x/daybook-collect");
}

#[test]
fn stderr_is_reported_by_its_last_meaningful_line() {
    // Python prints a traceback; the useful part is the bottom of it.
    assert_eq!(
        first_line("Traceback:\n  File x\nValueError: nope\n\n"),
        "ValueError: nope"
    );
    assert_eq!(first_line("   \n"), "no output");
}

#[test]
fn the_last_line_counts_even_without_a_newline() {
    assert_eq!(first_line("a\nb  "), "b");
    assert_eq!(first_line(""), "no output");
    assert_eq!(first_line("  only\r\n"), "only");
}
