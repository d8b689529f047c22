//! What the daybook pane says: the header, the footer, and the rows of its
//! three panels, as coloured spans. The terminal only paints them.
//!
//! Every row budget is re-checked per row rather than assumed from a window
//! size, because an expanded hint or a busy checkout costs a row of its own.

use vstd::prelude::*;

use crate::app::App;
use crate::ordering::stable_sort;
use crate::model::{band_of, busy, mark_of, Checkout, Doc, DocView, Item, Repo, RepoView, Severity, SCHEMA};
use crate::status::{glyph_of, status_named, Status};
use crate::text::{chars_of, decimal, decimal_text, pad_right, padded, truncate, truncated};
use crate::ui::{band_color, severity_color, status_rgb, status_rgb_of, Rgb};

verus! {

// ---------------------------------------------------------------------------
// Spans and the palette
// ---------------------------------------------------------------------------

/// A run of text in one colour.
#[derive(Debug)]
pub struct Span {
    pub text: String,
    pub color: Rgb,
    pub bold: bool,
}

/// A span as values.
pub struct SpanView {
    pub text: Seq<char>,
    pub color: Rgb,
    pub bold: bool,
}

impl View for Span {
    type V = SpanView;

    open spec fn view(&self) -> SpanView {
        SpanView { text: self.text@, color: self.color, bold: self.bold }
    }
}

/// One row of a panel: its spans, left to right.
#[derive(Debug)]
pub struct Line {
    pub spans: Vec<Span>,
}

impl View for Line {
    type V = Seq<SpanView>;

    open spec fn view(&self) -> Seq<SpanView> {
        self.spans@.map_values(|s: Span| s@)
    }
}

/// Some spans as values.
pub open spec fn spans_view(v: Seq<Span>) -> Seq<SpanView> {
    v.map_values(|s: Span| s@)
}

/// Some rows as values.
pub open spec fn lines_view(v: Seq<Line>) -> Seq<Seq<SpanView>> {
    v.map_values(|l: Line| l@)
}

/// A span as values.
pub open spec fn span(text: Seq<char>, color: Rgb, bold: bool) -> SpanView {
    SpanView { text, color, bold }
}

/// Titles and the selected row.
pub open spec fn bright() -> Rgb {
    Rgb { r: 224, g: 224, b: 224 }
}

/// Ordinary text.
pub open spec fn body() -> Rgb {
    Rgb { r: 196, g: 196, b: 196 }
}

/// Quiet text.
pub open spec fn dim() -> Rgb {
    Rgb { r: 124, g: 124, b: 124 }
}

/// Quieter text.
pub open spec fn faint() -> Rgb {
    Rgb { r: 96, g: 96, b: 96 }
}

/// Something is wrong.
pub open spec fn red() -> Rgb {
    Rgb { r: 247, g: 118, b: 142 }
}

/// Waiting on the user.
pub open spec fn orange() -> Rgb {
    Rgb { r: 255, g: 158, b: 100 }
}

/// Work in flight.
pub open spec fn yellow() -> Rgb {
    Rgb { r: 224, g: 175, b: 104 }
}

/// Done and good.
pub open spec fn green() -> Rgb {
    Rgb { r: 66, g: 190, b: 101 }
}

/// `a - b`, or zero when `b` is larger.
pub open spec fn less(a: nat, b: nat) -> nat {
    if a >= b {
        (a - b) as nat
    } else {
        0
    }
}

/// `n` in decimal.
pub open spec fn dec(n: nat) -> Seq<char> {
    decimal_text(n)
}

pub(crate) fn new_span(text: String, color: Rgb, bold: bool) -> (s: Span)
    ensures
        s@ == span(text@, color, bold),
{
    Span { text, color, bold }
}

/// `a` followed by `b`.
pub(crate) fn joined(a: String, b: &str) -> (s: String)
    ensures
        s@ == a@ + b@,
{
    let mut s = a;
    s.append(b);
    s
}

/// `a`, the decimal `n`, then `b`.
pub(crate) fn around(a: &str, n: u64, b: &str) -> (s: String)
    ensures
        s@ == a@ + dec(n as nat) + b@,
{
    let s = joined(String::from_str(a), decimal(n).as_str());
    joined(s, b)
}

// ---------------------------------------------------------------------------
// Panel titles and the header
// ---------------------------------------------------------------------------

/// A panel's title: its name, then its count when it has one, padded by a
/// space on each side.
pub open spec fn panel_title_text(title: Seq<char>, count: Option<usize>) -> Seq<char> {
    match count {
        Some(n) => " "@ + title + " "@ + dec(n as nat) + " "@,
        None => " "@ + title + " "@,
    }
}

/// The title a panel's border carries.
pub fn panel_title(title: &str, count: Option<usize>) -> (s: String)
    ensures
        s@ == panel_title_text(title@, count),
{
    let s = joined(joined(String::from_str(" "), title), " ");
    match count {
        Some(n) => around(s.as_str(), n as u64, " "),
        None => s,
    }
}

/// The window the document covers, or an ellipsis before there is one.
pub open spec fn window_text(doc: Option<DocView>) -> Seq<char> {
    match doc {
        Some(d) => if d.window.label@.len() > 0 {
            d.window.label@
        } else {
            "\u{2026}"@
        },
        None => "\u{2026}"@,
    }
}

/// What the header says: the pane's name and window, then, once a document is
/// in, its headline counts, and merged pull requests and requested reviews
/// when there are any.
pub open spec fn header_spans(doc: Option<DocView>) -> Seq<SpanView> {
    let head = seq![span(" daybook "@, bright(), true), span("\u{b7} "@ + window_text(doc), dim(), false)];
    match doc {
        None => head,
        Some(d) => {
            let t = d.totals;
            head + seq![
                span(
                    "   "@ + dec(t.commits as nat) + " commits in "@ + dec(t.repos_touched as nat) + " repos \u{b7} "@
                        + dec(t.sessions as nat) + " sessions \u{b7} "@ + dec(t.prs_open as nat) + " PRs open"@,
                    body(),
                    false,
                ),
            ] + (if t.prs_merged > 0 {
                seq![span(" \u{b7} "@ + dec(t.prs_merged as nat) + " merged"@, green(), false)]
            } else {
                Seq::empty()
            }) + (if t.reviews_requested > 0 {
                seq![span(" \u{b7} "@ + dec(t.reviews_requested as nat) + " to review"@, orange(), false)]
            } else {
                Seq::empty()
            })
        },
    }
}

/// The header line.
pub fn header(app: &App) -> (out: Vec<Span>)
    ensures
        spans_view(out@) == header_spans(app.doc_view()),
{
    let doc = app.doc();
    let window = match doc {
        Some(d) => {
            if !d.window.label.as_str().is_empty() {
                d.window.label.clone()
            } else {
                String::from_str("\u{2026}")
            }
        },
        None => String::from_str("\u{2026}"),
    };
    let mut out: Vec<Span> = Vec::new();
    out.push(new_span(String::from_str(" daybook "), Rgb { r: 224, g: 224, b: 224 }, true));
    out.push(new_span(joined(String::from_str("\u{b7} "), window.as_str()), Rgb { r: 124, g: 124, b: 124 }, false));
    let ghost head = spans_view(out@);
    assert(head =~= seq![span(" daybook "@, bright(), true), span("\u{b7} "@ + window_text(app.doc_view()), dim(), false)]);
    match doc {
        Some(d) => {
            let t = d.totals;
            let s = around("   ", t.commits as u64, " commits in ");
            let s = joined(s, decimal(t.repos_touched as u64).as_str());
            let s = joined(s, " repos \u{b7} ");
            let s = joined(s, decimal(t.sessions as u64).as_str());
            let s = joined(s, " sessions \u{b7} ");
            let s = joined(s, decimal(t.prs_open as u64).as_str());
            let s = joined(s, " PRs open");
            out.push(new_span(s, Rgb { r: 196, g: 196, b: 196 }, false));
            let ghost with_totals = spans_view(out@);
            assert(with_totals =~= head + seq![span(s@, body(), false)]);
            if t.prs_merged > 0 {
                out.push(new_span(around(" \u{b7} ", t.prs_merged as u64, " merged"), Rgb { r: 66, g: 190, b: 101 }, false));
            }
            let ghost with_merged = spans_view(out@);
            assert(with_merged =~= with_totals + (if t.prs_merged > 0 {
                seq![span(" \u{b7} "@ + dec(t.prs_merged as nat) + " merged"@, green(), false)]
            } else {
                Seq::<SpanView>::empty()
            }));
            if t.reviews_requested > 0 {
                out.push(new_span(around(" \u{b7} ", t.reviews_requested as u64, " to review"), Rgb { r: 255, g: 158, b: 100 }, false));
            }
            assert(spans_view(out@) =~= with_merged + (if t.reviews_requested > 0 {
                seq![span(" \u{b7} "@ + dec(t.reviews_requested as nat) + " to review"@, orange(), false)]
            } else {
                Seq::<SpanView>::empty()
            }));
        },
        None => {},
    }
    out
}


// ---------------------------------------------------------------------------
// The footer
// ---------------------------------------------------------------------------

/// What the footer says about the document on screen: that it came from the
/// cache and how old that was, how many notes the collector left, and a schema
/// other than the one this pane reads.
pub open spec fn doc_notes(d: DocView) -> Seq<SpanView> {
    (if d.from_cache {
        seq![span("\u{b7} cached "@ + dec(d.cache_age_seconds as nat) + "s "@, faint(), false)]
    } else {
        Seq::empty()
    }) + (if d.errors.len() > 0 {
        seq![span("\u{b7} "@ + dec(d.errors.len()) + " notes "@, orange(), false)]
    } else {
        Seq::empty()
    }) + (if d.schema != SCHEMA {
        seq![span("\u{b7} schema "@ + dec(d.schema as nat) + " \u{2260} "@ + dec(SCHEMA as nat) + " "@, red(), false)]
    } else {
        Seq::empty()
    })
}

/// What the footer says: the keys, whether a collection is running or how old
/// the document is, the filters in force, and notes on the document. An error
/// replaces all of it, cut to the footer's width.
pub open spec fn footer_spans(
    collecting: bool,
    age_secs: nat,
    max_severity: u8,
    net: bool,
    doc: Option<DocView>,
    error: Option<Seq<char>>,
    width: nat,
) -> Seq<SpanView> {
    match error {
        Some(e) => seq![span(" "@ + truncated(e, width) + " \u{2014} q close, r retry"@, red(), false)],
        None => seq![span(" q close  r refresh  j/k move  a all  n offline "@, dim(), false)] + (if collecting {
            seq![span("\u{b7} collecting\u{2026} "@, yellow(), false)]
        } else {
            seq![span("\u{b7} "@ + dec(age_secs) + "s ago "@, faint(), false)]
        }) + (if max_severity < 4 {
            seq![span("\u{b7} housekeeping hidden "@, faint(), false)]
        } else {
            Seq::empty()
        }) + (if !net {
            seq![span("\u{b7} offline "@, orange(), false)]
        } else {
            Seq::empty()
        }) + match doc {
            Some(d) => doc_notes(d),
            None => Seq::empty(),
        },
    }
}

/// Whole seconds since the pane last took a document or tried to.
pub open spec fn age_secs(app: App, now: u64) -> nat {
    (if now >= app.last_update() {
        (now - app.last_update()) as nat
    } else {
        0
    }) / 1000
}

/// The error on screen, as values.
pub open spec fn error_view(app: App) -> Option<Seq<char>> {
    match app.error {
        Some(e) => Some(e@),
        None => None,
    }
}

fn doc_note_spans(d: &Doc) -> (out: Vec<Span>)
    ensures
        spans_view(out@) == doc_notes(d@),
{
    let mut out: Vec<Span> = Vec::new();
    if d.from_cache {
        out.push(new_span(around("\u{b7} cached ", d.cache_age_seconds, "s "), Rgb { r: 96, g: 96, b: 96 }, false));
    }
    let ghost a = spans_view(out@);
    assert(a =~= (if d.from_cache {
        seq![span("\u{b7} cached "@ + dec(d.cache_age_seconds as nat) + "s "@, faint(), false)]
    } else {
        Seq::<SpanView>::empty()
    }));
    if d.errors.len() > 0 {
        out.push(new_span(around("\u{b7} ", d.errors.len() as u64, " notes "), Rgb { r: 255, g: 158, b: 100 }, false));
    }
    let ghost b = spans_view(out@);
    assert(b =~= a + (if d@.errors.len() > 0 {
        seq![span("\u{b7} "@ + dec(d@.errors.len()) + " notes "@, orange(), false)]
    } else {
        Seq::<SpanView>::empty()
    }));
    if d.schema != SCHEMA {
        let s = around("\u{b7} schema ", d.schema as u64, " \u{2260} ");
        let s = joined(s, decimal(SCHEMA as u64).as_str());
        let s = joined(s, " ");
        out.push(new_span(s, Rgb { r: 247, g: 118, b: 142 }, false));
    }
    assert(spans_view(out@) =~= b + (if d.schema != SCHEMA {
        seq![span("\u{b7} schema "@ + dec(d.schema as nat) + " \u{2260} "@ + dec(SCHEMA as nat) + " "@, red(), false)]
    } else {
        Seq::<SpanView>::empty()
    }));
    out
}

/// The footer line, `width` columns wide, at time `now`.
pub fn footer(app: &App, now: u64, width: usize) -> (out: Vec<Span>)
    ensures
        spans_view(out@) == footer_spans(
            app.collecting,
            age_secs(*app, now),
            app.max_severity,
            app.net,
            app.doc_view(),
            error_view(*app),
            width as nat,
        ),
{
    let mut out: Vec<Span> = Vec::new();
    match &app.error {
        Some(e) => {
            let s = joined(String::from_str(" "), truncate(e.as_str(), width).as_str());
            out.push(new_span(joined(s, " \u{2014} q close, r retry"), Rgb { r: 247, g: 118, b: 142 }, false));
            assert(spans_view(out@) =~= seq![
                span(" "@ + truncated(e@, width as nat) + " \u{2014} q close, r retry"@, red(), false),
            ]);
            return out;
        },
        None => {},
    }
    out.push(new_span(String::from_str(" q close  r refresh  j/k move  a all  n offline "), Rgb { r: 124, g: 124, b: 124 }, false));
    if app.collecting {
        out.push(new_span(String::from_str("\u{b7} collecting\u{2026} "), Rgb { r: 224, g: 175, b: 104 }, false));
    } else {
        out.push(new_span(around("\u{b7} ", app.age(now) / 1000, "s ago "), Rgb { r: 96, g: 96, b: 96 }, false));
    }
    let ghost a = spans_view(out@);
    assert(a =~= seq![span(" q close  r refresh  j/k move  a all  n offline "@, dim(), false)] + (if app.collecting {
        seq![span("\u{b7} collecting\u{2026} "@, yellow(), false)]
    } else {
        seq![span("\u{b7} "@ + dec(age_secs(*app, now)) + "s ago "@, faint(), false)]
    }));
    if app.max_severity < 4 {
        out.push(new_span(String::from_str("\u{b7} housekeeping hidden "), Rgb { r: 96, g: 96, b: 96 }, false));
    }
    let ghost b = spans_view(out@);
    assert(b =~= a + (if app.max_severity < 4 {
        seq![span("\u{b7} housekeeping hidden "@, faint(), false)]
    } else {
        Seq::<SpanView>::empty()
    }));
    if !app.net {
        out.push(new_span(String::from_str("\u{b7} offline "), Rgb { r: 255, g: 158, b: 100 }, false));
    }
    let ghost c = spans_view(out@);
    assert(c =~= b + (if !app.net {
        seq![span("\u{b7} offline "@, orange(), false)]
    } else {
        Seq::<SpanView>::empty()
    }));
    match app.doc() {
        Some(d) => {
            let mut notes = doc_note_spans(d);
            let ghost before = out@;
            let ghost added = notes@;
            out.append(&mut notes);
            assert(out@ == before + added);
            assert(spans_view(out@) =~= spans_view(before) + spans_view(added));
        },
        None => {
            assert(spans_view(out@) =~= c + Seq::<SpanView>::empty());
        },
    }
    out
}


// ---------------------------------------------------------------------------
// Open loops
// ---------------------------------------------------------------------------

/// The open loops the pane lists: the document's attention items in the bands
/// shown, in document order.
pub open spec fn shown_items(app: App) -> Seq<Item> {
    match app.doc_view() {
        Some(d) => d.attention.filter(|i: Item| crate::model::within_band(i, app.max_severity)),
        None => Seq::empty(),
    }
}

/// An item's row: its band's mark in the band's colour, then its text cut to
/// the width less three columns, bright and bold when it is the selected row.
pub open spec fn entry_line(it: Item, selected: bool, width: nat) -> Seq<SpanView> {
    seq![
        span(mark_of(band_of(it.severity)) + " "@, band_color(band_of(it.severity)), true),
        span(truncated(it.text@, less(width, 3)), if selected { bright() } else { body() }, selected),
    ]
}

/// The selected item's suggested next move, indented under it.
pub open spec fn hint_line(it: Item, width: nat) -> Seq<SpanView> {
    seq![span("     \u{2192} "@ + truncated(it.hint@, less(width, 7)), faint(), false)]
}

/// The rows for items `i` up to `end`, after the rows `acc`: each item's row,
/// and the selected item's hint while a row is left for it, until the rows run
/// out.
pub open spec fn loop_rows_from(
    items: Seq<Item>,
    i: int,
    end: int,
    cursor: int,
    width: nat,
    height: nat,
    acc: Seq<Seq<SpanView>>,
) -> Seq<Seq<SpanView>>
    decreases end - i,
{
    if i >= end || acc.len() >= height {
        acc
    } else {
        let it = items[i];
        let with_entry = acc.push(entry_line(it, i == cursor, width));
        let with_hint = if i == cursor && it.hint@.len() > 0 && with_entry.len() < height {
            with_entry.push(hint_line(it, width))
        } else {
            with_entry
        };
        loop_rows_from(items, i + 1, end, cursor, width, height, with_hint)
    }
}

/// The open-loops panel's rows, `height` rows of `width` columns, scrolled to
/// `offset` with the cursor on `cursor`.
pub open spec fn loop_rows(items: Seq<Item>, offset: int, cursor: int, width: nat, height: nat) -> Seq<Seq<SpanView>> {
    let end = if offset + height < items.len() {
        offset + height
    } else {
        items.len() as int
    };
    loop_rows_from(items, offset, end, cursor, width, height, Seq::empty())
}

/// The open-loops panel, `height` rows of `width` columns.
pub fn loop_lines(app: &App, width: usize, height: usize) -> (out: Vec<Line>)
    ensures
        lines_view(out@) == loop_rows(shown_items(*app), app.offset as int, app.cursor as int, width as nat, height as nat),
{
    let items: Vec<&Item> = match app.doc() {
        Some(d) => d.loops(app.max_severity),
        None => Vec::new(),
    };
    let ghost all = items@.map_values(|i: &Item| *i);
    assert(all =~= shown_items(*app));
    let n = items.len();
    let offset = app.offset;
    let end = if offset >= n {
        n
    } else if height >= n - offset {
        n
    } else {
        offset + height
    };
    let mut out: Vec<Line> = Vec::new();
    let mut i = offset;
    assert(lines_view(out@) =~= Seq::<Seq<SpanView>>::empty());
    while i < end && out.len() < height
        invariant
            n == items.len(),
            end <= n,
            all == items@.map_values(|i: &Item| *i),
            all.len() == n,
            loop_rows(all, offset as int, app.cursor as int, width as nat, height as nat) == loop_rows_from(
                all,
                i as int,
                end as int,
                app.cursor as int,
                width as nat,
                height as nat,
                lines_view(out@),
            ),
        decreases end - i,
    {
        let item = items[i];
        assert(all[i as int] == *item);
        let sev = Severity::parse(item.severity);
        let selected = i == app.cursor;
        let mut spans: Vec<Span> = Vec::new();
        spans.push(new_span(joined(String::from_str(sev.mark()), " "), severity_color(sev), true));
        let text_color = if selected {
            Rgb { r: 224, g: 224, b: 224 }
        } else {
            Rgb { r: 196, g: 196, b: 196 }
        };
        spans.push(new_span(truncate(item.text.as_str(), width.saturating_sub(3)), text_color, selected));
        assert(spans_view(spans@) =~= entry_line(*item, selected, width as nat));
        let ghost before = lines_view(out@);
        out.push(Line { spans });
        assert(lines_view(out@) =~= before.push(entry_line(*item, selected, width as nat)));
        if selected && !item.hint.as_str().is_empty() && out.len() < height {
            let mut hint: Vec<Span> = Vec::new();
            let text = joined(
                String::from_str("     \u{2192} "),
                truncate(item.hint.as_str(), width.saturating_sub(7)).as_str(),
            );
            hint.push(new_span(text, Rgb { r: 96, g: 96, b: 96 }, false));
            assert(spans_view(hint@) =~= hint_line(*item, width as nat));
            let ghost mid = lines_view(out@);
            out.push(Line { spans: hint });
            assert(lines_view(out@) =~= mid.push(hint_line(*item, width as nat)));
        }
        i = i + 1;
    }
    out
}


// ---------------------------------------------------------------------------
// What moved
// ---------------------------------------------------------------------------

/// A repository, as values, did something worth a row.
pub open spec fn moved(r: RepoView) -> bool {
    r.commits.len() > 0 || r.dirty > 0 || r.ahead > 0
}

/// The repositories the pane lists, in document order.
pub open spec fn shown_repos(app: App) -> Seq<RepoView> {
    match app.doc_view() {
        Some(d) => d.repos.filter(|r: RepoView| moved(r)),
        None => Seq::empty(),
    }
}

/// Total characters of some spans.
pub open spec fn spans_len(s: Seq<SpanView>) -> nat
    decreases s.len(),
{
    if s.len() == 0 {
        0
    } else {
        spans_len(s.drop_last()) + s.last().text.len()
    }
}

/// A repository's counts, each one space in: commits in green, dirty files in
/// yellow, unpushed commits in orange, others' commits dimmed; each only when
/// it is not zero.
pub open spec fn count_spans(r: RepoView) -> Seq<SpanView> {
    (if r.commits.len() > 0 {
        seq![span(" "@ + dec(r.commits.len()) + "\u{25cf}"@, green(), false)]
    } else {
        Seq::empty()
    }) + (if r.dirty > 0 {
        seq![span(" "@ + dec(r.dirty as nat) + "\u{270e}"@, yellow(), false)]
    } else {
        Seq::empty()
    }) + (if r.ahead > 0 {
        seq![span(" "@ + dec(r.ahead as nat) + "\u{2191}"@, orange(), false)]
    } else {
        Seq::empty()
    }) + (if r.commits_by_others > 0 {
        seq![span(" "@ + dec(r.commits_by_others as nat) + "\u{25e6}"@, dim(), false)]
    } else {
        Seq::empty()
    })
}

/// A repository's row: the counts get the width they need and the name is cut
/// to the rest.
pub open spec fn name_line(r: RepoView, width: nat) -> Seq<SpanView> {
    seq![span(truncated(r.name@, less(width, spans_len(count_spans(r)))), bright(), false)] + count_spans(r)
}

/// A checkout's dirty files and unpushed commits, each one space in.
pub open spec fn branch_marks(c: Checkout) -> Seq<char> {
    (if c.dirty > 0 {
        " "@ + dec(c.dirty as nat) + "\u{270e}"@
    } else {
        Seq::empty()
    }) + (if c.ahead > 0 {
        " "@ + dec(c.ahead as nat) + "\u{2191}"@
    } else {
        Seq::empty()
    })
}

/// A busy checkout's row: its branch, indented and cut to leave room for its
/// marks.
pub open spec fn branch_line(c: Checkout, width: nat) -> Seq<SpanView> {
    seq![span("  "@ + truncated(c.branch@, less(width, branch_marks(c).len() + 2)) + branch_marks(c), faint(), false)]
}

/// The newest commit's subject, indented.
pub open spec fn subject_line(r: RepoView, width: nat) -> Seq<SpanView> {
    seq![span("  "@ + truncated(r.commits[0].subject@, less(width, 2)), dim(), false)]
}

/// Rows for the checkouts `cos` from the `j`-th on, after `acc`, until the
/// rows run out. The main checkout of a repository with no other checkout
/// gets no row: it is the obvious one.
pub open spec fn checkout_rows(
    cos: Seq<Checkout>,
    j: int,
    single: bool,
    width: nat,
    height: nat,
    acc: Seq<Seq<SpanView>>,
) -> Seq<Seq<SpanView>>
    decreases cos.len() - j,
{
    if j >= cos.len() || acc.len() >= height {
        acc
    } else if !cos[j].is_worktree && single {
        checkout_rows(cos, j + 1, single, width, height, acc)
    } else {
        checkout_rows(cos, j + 1, single, width, height, acc.push(branch_line(cos[j], width)))
    }
}

/// Rows for the repositories from the `k`-th on, after `acc`: each one's row,
/// its busy checkouts most interesting first, and its newest commit's subject,
/// until the rows run out.
pub open spec fn repo_rows_from(
    repos: Seq<RepoView>,
    k: int,
    width: nat,
    height: nat,
    acc: Seq<Seq<SpanView>>,
) -> Seq<Seq<SpanView>>
    decreases repos.len() - k,
{
    if k >= repos.len() || acc.len() >= height {
        acc
    } else {
        let r = repos[k];
        let with_name = acc.push(name_line(r, width));
        let with_checkouts = checkout_rows(
            stable_sort(r.checkouts.filter(|c: Checkout| busy(c))),
            0,
            r.checkouts.len() == 1,
            width,
            height,
            with_name,
        );
        let with_subject = if r.commits.len() > 0 && with_checkouts.len() < height {
            with_checkouts.push(subject_line(r, width))
        } else {
            with_checkouts
        };
        repo_rows_from(repos, k + 1, width, height, with_subject)
    }
}

/// Filtering repositories by activity and then viewing them is viewing them
/// and then filtering by activity.
proof fn lemma_active_views(s: Seq<Repo>)
    ensures
        s.filter(|r: Repo| crate::model::repo_active(r)).map_values(|r: Repo| r@) == s.map_values(
            |r: Repo| r@,
        ).filter(|r: RepoView| moved(r)),
    decreases s.len(),
{
    reveal(Seq::filter);
    if s.len() > 0 {
        lemma_active_views(s.drop_last());
        assert(s.map_values(|r: Repo| r@).drop_last() =~= s.drop_last().map_values(|r: Repo| r@));
        let p = |r: Repo| crate::model::repo_active(r);
        let f = s.drop_last().filter(p);
        if p(s.last()) {
            assert(f.push(s.last()).map_values(|r: Repo| r@) =~= f.map_values(|r: Repo| r@).push(s.last()@));
        }
    }
}

/// The number of characters in `s`.
pub(crate) fn length_of(s: &str) -> (n: usize)
    ensures
        n == s@.len(),
{
    s.unicode_len()
}

/// Append the count `n` with its mark, and take its width from `room`.
fn push_count(counts: &mut Vec<Span>, room: &mut usize, n: u64, mark: &str, color: Rgb)
    ensures
        spans_view(final(counts)@) == spans_view(old(counts)@).push(span(" "@ + dec(n as nat) + mark@, color, false)),
        spans_len(spans_view(final(counts)@)) == spans_len(spans_view(old(counts)@)) + (" "@ + dec(n as nat) + mark@).len(),
        *final(room) as nat == less(*old(room) as nat, (" "@ + dec(n as nat) + mark@).len()),
{
    let s = around(" ", n, mark);
    let k = length_of(s.as_str());
    let ghost before = spans_view(counts@);
    counts.push(new_span(s, color, false));
    assert(spans_view(counts@) =~= before.push(span(" "@ + dec(n as nat) + mark@, color, false)));
    assert(spans_view(counts@).drop_last() =~= before);
    *room = room.saturating_sub(k);
}

/// A repository's counts, and what is left of `width` once they are drawn.
fn count_span_list(r: &Repo, width: usize) -> (out: (Vec<Span>, usize))
    ensures
        spans_view(out.0@) == count_spans(r@),
        out.1 as nat == less(width as nat, spans_len(count_spans(r@))),
{
    let mut counts: Vec<Span> = Vec::new();
    let mut room = width;
    let ghost a: Seq<SpanView> = if r.commits@.len() > 0 {
        seq![span(" "@ + dec(r.commits@.len()) + "\u{25cf}"@, green(), false)]
    } else {
        Seq::empty()
    };
    let ghost b: Seq<SpanView> = if r.dirty > 0 {
        seq![span(" "@ + dec(r.dirty as nat) + "\u{270e}"@, yellow(), false)]
    } else {
        Seq::empty()
    };
    let ghost c: Seq<SpanView> = if r.ahead > 0 {
        seq![span(" "@ + dec(r.ahead as nat) + "\u{2191}"@, orange(), false)]
    } else {
        Seq::empty()
    };
    let ghost d: Seq<SpanView> = if r.commits_by_others > 0 {
        seq![span(" "@ + dec(r.commits_by_others as nat) + "\u{25e6}"@, dim(), false)]
    } else {
        Seq::empty()
    };
    assert(spans_view(counts@) =~= Seq::<SpanView>::empty());
    if !r.commits.is_empty() {
        push_count(&mut counts, &mut room, r.commits.len() as u64, "\u{25cf}", Rgb { r: 66, g: 190, b: 101 });
    }
    assert(spans_view(counts@) =~= a);
    if r.dirty > 0 {
        push_count(&mut counts, &mut room, r.dirty as u64, "\u{270e}", Rgb { r: 224, g: 175, b: 104 });
    }
    assert(spans_view(counts@) =~= a + b);
    if r.ahead > 0 {
        push_count(&mut counts, &mut room, r.ahead as u64, "\u{2191}", Rgb { r: 255, g: 158, b: 100 });
    }
    assert(spans_view(counts@) =~= a + b + c);
    if r.commits_by_others > 0 {
        push_count(&mut counts, &mut room, r.commits_by_others as u64, "\u{25e6}", Rgb { r: 124, g: 124, b: 124 });
    }
    assert(spans_view(counts@) =~= a + b + c + d);
    assert(count_spans(r@) =~= a + b + c + d);
    (counts, room)
}


pub(crate) fn one_span(text: String, color: Rgb) -> (l: Line)
    ensures
        l@ == seq![span(text@, color, false)],
{
    let mut spans: Vec<Span> = Vec::new();
    spans.push(new_span(text, color, false));
    assert(spans_view(spans@) =~= seq![span(text@, color, false)]);
    Line { spans }
}

fn name_row(r: &Repo, width: usize) -> (l: Line)
    ensures
        l@ == name_line(r@, width as nat),
{
    let (mut counts, room) = count_span_list(r, width);
    let ghost tail = counts@;
    let mut spans: Vec<Span> = Vec::new();
    spans.push(new_span(truncate(r.name.as_str(), room), Rgb { r: 224, g: 224, b: 224 }, false));
    let ghost head = spans@;
    spans.append(&mut counts);
    assert(spans@ == head + tail);
    assert(spans_view(spans@) =~= spans_view(head) + spans_view(tail));
    assert(spans_view(head) =~= seq![
        span(truncated(r@.name@, less(width as nat, spans_len(count_spans(r@)))), bright(), false),
    ]);
    Line { spans }
}

fn branch_row(c: &Checkout, width: usize) -> (l: Line)
    ensures
        l@ == branch_line(*c, width as nat),
{
    let mut marks = String::new();
    if c.dirty > 0 {
        marks = joined(marks, around(" ", c.dirty as u64, "\u{270e}").as_str());
    }
    if c.ahead > 0 {
        marks = joined(marks, around(" ", c.ahead as u64, "\u{2191}").as_str());
    }
    assert(marks@ =~= branch_marks(*c));
    let room = width.saturating_sub(2).saturating_sub(length_of(marks.as_str()));
    let text = joined(joined(String::from_str("  "), truncate(c.branch.as_str(), room).as_str()), marks.as_str());
    one_span(text, Rgb { r: 96, g: 96, b: 96 })
}

fn subject_row(r: &Repo, width: usize) -> (l: Line)
    requires
        r.commits@.len() > 0,
    ensures
        l@ == subject_line(r@, width as nat),
{
    let text = joined(String::from_str("  "), truncate(r.commits[0].subject.as_str(), width.saturating_sub(2)).as_str());
    one_span(text, Rgb { r: 124, g: 124, b: 124 })
}

/// The "moved" panel, `height` rows of `width` columns.
pub fn repo_lines(app: &App, width: usize, height: usize) -> (out: Vec<Line>)
    ensures
        lines_view(out@) == repo_rows_from(shown_repos(*app), 0, width as nat, height as nat, Seq::empty()),
{
    let repos: Vec<&Repo> = match app.doc() {
        Some(d) => {
            let v = d.active_repos();
            proof {
                lemma_active_views(d.repos@);
                assert(v@.map_values(|r: &Repo| r@) =~= v@.map_values(|r: &Repo| *r).map_values(|r: Repo| r@));
            }
            v
        },
        None => Vec::new(),
    };
    let ghost all = repos@.map_values(|r: &Repo| r@);
    assert(all =~= shown_repos(*app));
    let mut out: Vec<Line> = Vec::new();
    assert(lines_view(out@) =~= Seq::<Seq<SpanView>>::empty());
    let mut k: usize = 0;
    while k < repos.len() && out.len() < height
        invariant
            k <= repos.len(),
            all == repos@.map_values(|r: &Repo| r@),
            repo_rows_from(all, 0, width as nat, height as nat, Seq::empty()) == repo_rows_from(
                all,
                k as int,
                width as nat,
                height as nat,
                lines_view(out@),
            ),
        decreases repos.len() - k,
    {
        let r = repos[k];
        assert(all[k as int] == r@);
        let ghost acc = lines_view(out@);
        out.push(name_row(r, width));
        assert(lines_view(out@) =~= acc.push(name_line(r@, width as nat)));
        let cos = r.busy_checkouts();
        let ghost cs = cos@.map_values(|c: &Checkout| *c);
        let single = r.checkouts.len() == 1;
        let ghost target = checkout_rows(cs, 0, single, width as nat, height as nat, lines_view(out@));
        let mut j: usize = 0;
        while j < cos.len() && out.len() < height
            invariant
                j <= cos.len(),
                cs == cos@.map_values(|c: &Checkout| *c),
                target == checkout_rows(cs, j as int, single, width as nat, height as nat, lines_view(out@)),
            decreases cos.len() - j,
        {
            let co = cos[j];
            assert(cs[j as int] == *co);
            if co.is_worktree || !single {
                let ghost before = lines_view(out@);
                out.push(branch_row(co, width));
                assert(lines_view(out@) =~= before.push(branch_line(*co, width as nat)));
            }
            j = j + 1;
        }
        if !r.commits.is_empty() && out.len() < height {
            let ghost before = lines_view(out@);
            out.push(subject_row(r, width));
            assert(lines_view(out@) =~= before.push(subject_line(r@, width as nat)));
        }
        k = k + 1;
    }
    out
}


// ---------------------------------------------------------------------------
// Agents
// ---------------------------------------------------------------------------

/// The start of an agent's row: its status glyph and its pane, left-aligned
/// in five columns.
pub open spec fn agent_head(a: crate::model::Agent) -> Seq<char> {
    glyph_of(status_named(a.status@)) + " "@ + padded(a.pane_id@, 5) + " "@
}

/// An agent's row: the head in its status colour, then its title (its name
/// when it has none) cut to the rest of the width.
pub open spec fn agent_row(a: crate::model::Agent, width: nat) -> Seq<SpanView> {
    let label = if a.title@.len() == 0 {
        a.agent@
    } else {
        a.title@
    };
    seq![
        span(agent_head(a), status_rgb_of(status_named(a.status@)), false),
        span(truncated(label, less(width, agent_head(a).len())), body(), false),
    ]
}

/// The agents panel's rows: one per agent while the rows last.
pub open spec fn agent_rows(app: App, width: nat, height: nat) -> Seq<Seq<SpanView>> {
    let agents = match app.doc_view() {
        Some(d) => d.agents,
        None => Seq::empty(),
    };
    let n = if height < agents.len() {
        height as int
    } else {
        agents.len() as int
    };
    Seq::new(n as nat, |i: int| agent_row(agents[i], width))
}

fn agent_row_line(a: &crate::model::Agent, width: usize) -> (l: Line)
    ensures
        l@ == agent_row(*a, width as nat),
{
    let status = Status::parse(a.status.as_str());
    let head = joined(String::from_str(status.glyph()), " ");
    let head = joined(head, pad_right(a.pane_id.as_str(), 5).as_str());
    let head = joined(head, " ");
    assert(head@ =~= agent_head(*a));
    let room = width.saturating_sub(length_of(head.as_str()));
    let label = if a.title.as_str().is_empty() {
        a.agent.as_str()
    } else {
        a.title.as_str()
    };
    let mut spans: Vec<Span> = Vec::new();
    spans.push(new_span(head, status_rgb(status), false));
    spans.push(new_span(truncate(label, room), Rgb { r: 196, g: 196, b: 196 }, false));
    assert(spans_view(spans@) =~= agent_row(*a, width as nat));
    Line { spans }
}

/// The agents panel, `height` rows of `width` columns.
pub fn agent_lines(app: &App, width: usize, height: usize) -> (out: Vec<Line>)
    ensures
        lines_view(out@) == agent_rows(*app, width as nat, height as nat),
{
    let mut out: Vec<Line> = Vec::new();
    match app.doc() {
        Some(d) => {
            let mut i: usize = 0;
            while i < d.agents.len() && i < height
                invariant
                    i <= d.agents.len(),
                    i <= height,
                    out.len() == i,
                    forall|j: int| 0 <= j < i ==> (#[trigger] out@[j])@ == agent_row(d.agents@[j], width as nat),
                decreases d.agents.len() - i,
            {
                out.push(agent_row_line(&d.agents[i], width));
                i = i + 1;
            }
            assert(app.doc_view() == Some(d@));
            assert(lines_view(out@) =~= agent_rows(*app, width as nat, height as nat));
        },
        None => {
            assert(lines_view(out@) =~= agent_rows(*app, width as nat, height as nat));
        },
    }
    out
}


// ---------------------------------------------------------------------------
// The plain-text frame
// ---------------------------------------------------------------------------

/// The frame's first line: the window and the headline counts.
pub open spec fn brief_head(d: DocView) -> Seq<char> {
    let t = d.totals;
    "daybook \u{2014} "@ + (if d.window.label@.len() == 0 {
        "(no window)"@
    } else {
        d.window.label@
    }) + " \u{b7} "@ + dec(t.commits as nat) + " commits in "@ + dec(t.repos_touched as nat) + " repos \u{b7} "@
        + dec(t.sessions as nat) + " sessions \u{b7} "@ + dec(t.prs_open as nat) + " PRs open \u{b7} "@ + dec(
        t.agents as nat,
    ) + " agents"@
}

/// An open loop's lines: its mark and text, then its hint when it has one.
pub open spec fn item_text_lines(it: Item) -> Seq<Seq<char>> {
    seq!["  "@ + mark_of(band_of(it.severity)) + " "@ + it.text@] + (if it.hint@.len() > 0 {
        seq!["       \u{2192} "@ + it.hint@]
    } else {
        Seq::empty()
    })
}

/// The lines of some open loops, in order.
pub open spec fn items_text(items: Seq<Item>) -> Seq<Seq<char>>
    decreases items.len(),
{
    if items.len() == 0 {
        Seq::empty()
    } else {
        items_text(items.drop_last()) + item_text_lines(items.last())
    }
}

/// A repository's counts for the frame: commits, dirty files, unpushed
/// commits, each only when it is not zero.
pub open spec fn repo_bits(r: RepoView) -> Seq<Seq<char>> {
    (if r.commits.len() > 0 {
        seq![dec(r.commits.len()) + "\u{25cf}"@]
    } else {
        Seq::empty()
    }) + (if r.dirty > 0 {
        seq![dec(r.dirty as nat) + "\u{270e}"@]
    } else {
        Seq::empty()
    }) + (if r.ahead > 0 {
        seq![dec(r.ahead as nat) + "\u{2191}"@]
    } else {
        Seq::empty()
    })
}

/// `parts` with `sep` between each two.
pub open spec fn separated(parts: Seq<Seq<char>>, sep: Seq<char>) -> Seq<char>
    decreases parts.len(),
{
    if parts.len() == 0 {
        Seq::empty()
    } else if parts.len() == 1 {
        parts[0]
    } else {
        separated(parts.drop_last(), sep) + sep + parts.last()
    }
}

/// A repository's line: its name in 28 columns, then its counts.
pub open spec fn repo_text_line(r: RepoView) -> Seq<char> {
    "  "@ + padded(r.name@, 28) + " "@ + separated(repo_bits(r), " "@)
}

/// An agent's line: glyph, status name in 8 columns, pane in 6, title.
pub open spec fn agent_text_line(a: crate::model::Agent) -> Seq<char> {
    let st = status_named(a.status@);
    "  "@ + glyph_of(st) + " "@ + padded(crate::status::label_of(st), 8) + " "@ + padded(a.pane_id@, 6) + " "@ + a.title@
}

/// The plain-text frame, line by line: the headline, the open loops in the
/// bands shown, the repositories that moved, the agents, and the collector's
/// notes when it left any. Each section is set off by an empty line.
pub open spec fn brief(d: DocView, max_severity: u8) -> Seq<Seq<char>> {
    let loops = d.attention.filter(|i: Item| crate::model::within_band(i, max_severity));
    let repos = d.repos.filter(|r: RepoView| moved(r));
    seq![brief_head(d), Seq::empty(), "open loops ("@ + dec(loops.len()) + ")"@] + (if loops.len() == 0 {
        seq!["  nothing waiting on you"@]
    } else {
        Seq::empty()
    }) + items_text(loops) + seq![Seq::empty(), "moved ("@ + dec(repos.len()) + ")"@] + repos.map_values(
        |r: RepoView| repo_text_line(r),
    ) + seq![Seq::empty(), "agents ("@ + dec(d.agents.len()) + ")"@] + d.agents.map_values(
        |a: crate::model::Agent| agent_text_line(a),
    ) + (if d.errors.len() > 0 {
        seq![Seq::empty(), "notes"@] + d.errors.map_values(|e: String| "  - "@ + e@)
    } else {
        Seq::empty()
    })
}

/// Some strings as values.
pub open spec fn texts(v: Seq<String>) -> Seq<Seq<char>> {
    v.map_values(|s: String| s@)
}

/// Append `line` to `out`.
pub(crate) fn emit(out: &mut Vec<String>, line: String)
    ensures
        texts(final(out)@) == texts(old(out)@).push(line@),
{
    let ghost before = texts(out@);
    out.push(line);
    assert(texts(out@) =~= before.push(line@));
}

fn brief_head_line(d: &Doc) -> (s: String)
    ensures
        s@ == brief_head(d@),
{
    let t = d.totals;
    let label = if d.window.label.as_str().is_empty() {
        String::from_str("(no window)")
    } else {
        d.window.label.clone()
    };
    let s = joined(String::from_str("daybook \u{2014} "), label.as_str());
    let s = joined(s, " \u{b7} ");
    let s = joined(s, decimal(t.commits as u64).as_str());
    let s = joined(s, " commits in ");
    let s = joined(s, decimal(t.repos_touched as u64).as_str());
    let s = joined(s, " repos \u{b7} ");
    let s = joined(s, decimal(t.sessions as u64).as_str());
    let s = joined(s, " sessions \u{b7} ");
    let s = joined(s, decimal(t.prs_open as u64).as_str());
    let s = joined(s, " PRs open \u{b7} ");
    let s = joined(s, decimal(t.agents as u64).as_str());
    joined(s, " agents")
}

fn repo_text(r: &Repo) -> (s: String)
    ensures
        s@ == repo_text_line(r@),
{
    let mut bits: Vec<String> = Vec::new();
    if !r.commits.is_empty() {
        emit(&mut bits, joined(decimal(r.commits.len() as u64), "\u{25cf}"));
    }
    if r.dirty > 0 {
        emit(&mut bits, joined(decimal(r.dirty as u64), "\u{270e}"));
    }
    if r.ahead > 0 {
        emit(&mut bits, joined(decimal(r.ahead as u64), "\u{2191}"));
    }
    assert(texts(bits@) =~= repo_bits(r@));
    let mut tail = String::new();
    let mut k: usize = 0;
    while k < bits.len()
        invariant
            k <= bits.len(),
            tail@ == separated(texts(bits@).take(k as int), " "@),
        decreases bits.len() - k,
    {
        let ghost before = tail@;
        if k > 0 {
            tail = joined(tail, " ");
        }
        tail = joined(tail, bits[k].as_str());
        proof {
            let p = texts(bits@).take(k + 1);
            assert(p.drop_last() =~= texts(bits@).take(k as int));
            assert(p.last() == bits@[k as int]@);
            if k == 0 {
                assert(before =~= Seq::<char>::empty());
            }
        }
        k = k + 1;
    }
    assert(texts(bits@).take(bits.len() as int) =~= texts(bits@));
    let s = joined(String::from_str("  "), pad_right(r.name.as_str(), 28).as_str());
    let s = joined(s, " ");
    joined(s, tail.as_str())
}

fn agent_text(a: &crate::model::Agent) -> (s: String)
    ensures
        s@ == agent_text_line(*a),
{
    let st = Status::parse(a.status.as_str());
    let s = joined(String::from_str("  "), st.glyph());
    let s = joined(s, " ");
    let s = joined(s, pad_right(st.label(), 8).as_str());
    let s = joined(s, " ");
    let s = joined(s, pad_right(a.pane_id.as_str(), 6).as_str());
    let s = joined(s, " ");
    joined(s, a.title.as_str())
}

/// The plain-text frame for a document, open loops down to `max_severity`.
pub fn brief_lines(d: &Doc, max_severity: u8) -> (out: Vec<String>)
    ensures
        texts(out@) == brief(d@, max_severity),
{
    let mut out: Vec<String> = Vec::new();
    let loops = d.loops(max_severity);
    let ghost loop_items = loops@.map_values(|i: &Item| *i);
    emit(&mut out, brief_head_line(d));
    emit(&mut out, String::new());
    emit(&mut out, around("open loops (", loops.len() as u64, ")"));
    if loops.len() == 0 {
        emit(&mut out, String::from_str("  nothing waiting on you"));
    }
    let ghost part1 = texts(out@);
    let mut i: usize = 0;
    while i < loops.len()
        invariant
            i <= loops.len(),
            loop_items == loops@.map_values(|i: &Item| *i),
            texts(out@) == part1 + items_text(loop_items.take(i as int)),
        decreases loops.len() - i,
    {
        let item = loops[i];
        let mut first = joined(String::from_str("  "), Severity::parse(item.severity).mark());
        first = joined(first, " ");
        first = joined(first, item.text.as_str());
        emit(&mut out, first);
        if !item.hint.as_str().is_empty() {
            emit(&mut out, joined(String::from_str("       \u{2192} "), item.hint.as_str()));
        }
        proof {
            let p = loop_items.take(i + 1);
            assert(p.drop_last() =~= loop_items.take(i as int));
            assert(p.last() == *item);
            assert(texts(out@) =~= part1 + items_text(loop_items.take(i as int)) + item_text_lines(*item));
        }
        i = i + 1;
    }
    assert(loop_items.take(loops.len() as int) =~= loop_items);
    let repos = d.active_repos();
    proof {
        lemma_active_views(d.repos@);
        assert(repos@.map_values(|r: &Repo| r@) =~= repos@.map_values(|r: &Repo| *r).map_values(|r: Repo| r@));
    }
    let ghost shown = repos@.map_values(|r: &Repo| r@);
    emit(&mut out, String::new());
    emit(&mut out, around("moved (", repos.len() as u64, ")"));
    let ghost part2 = texts(out@);
    let mut k: usize = 0;
    while k < repos.len()
        invariant
            k <= repos.len(),
            shown == repos@.map_values(|r: &Repo| r@),
            texts(out@) == part2 + shown.take(k as int).map_values(|r: RepoView| repo_text_line(r)),
        decreases repos.len() - k,
    {
        let ghost before = texts(out@);
        emit(&mut out, repo_text(repos[k]));
        assert(shown.take(k + 1).map_values(|r: RepoView| repo_text_line(r)) =~= shown.take(k as int).map_values(
            |r: RepoView| repo_text_line(r),
        ).push(repo_text_line(repos@[k as int]@)));
        k = k + 1;
    }
    assert(shown.take(repos.len() as int) =~= shown);
    emit(&mut out, String::new());
    emit(&mut out, around("agents (", d.agents.len() as u64, ")"));
    let ghost part3 = texts(out@);
    let mut j: usize = 0;
    while j < d.agents.len()
        invariant
            j <= d.agents.len(),
            texts(out@) == part3 + d.agents@.take(j as int).map_values(|a: crate::model::Agent| agent_text_line(a)),
        decreases d.agents.len() - j,
    {
        emit(&mut out, agent_text(&d.agents[j]));
        assert(d.agents@.take(j + 1).map_values(|a: crate::model::Agent| agent_text_line(a)) =~= d.agents@.take(
            j as int,
        ).map_values(|a: crate::model::Agent| agent_text_line(a)).push(agent_text_line(d.agents@[j as int])));
        j = j + 1;
    }
    assert(d.agents@.take(d.agents.len() as int) =~= d.agents@);
    let ghost part4 = texts(out@);
    if d.errors.len() > 0 {
        emit(&mut out, String::new());
        emit(&mut out, String::from_str("notes"));
        let ghost part5 = texts(out@);
        let mut e: usize = 0;
        while e < d.errors.len()
            invariant
                e <= d.errors.len(),
                texts(out@) == part5 + d.errors@.take(e as int).map_values(|s: String| "  - "@ + s@),
            decreases d.errors.len() - e,
        {
            emit(&mut out, joined(String::from_str("  - "), d.errors[e].as_str()));
            assert(d.errors@.take(e + 1).map_values(|s: String| "  - "@ + s@) =~= d.errors@.take(e as int).map_values(
                |s: String| "  - "@ + s@,
            ).push("  - "@ + d.errors@[e as int]@));
            e = e + 1;
        }
        assert(d.errors@.take(d.errors.len() as int) =~= d.errors@);
    }
    assert(texts(out@) =~= brief(d@, max_severity));
    out
}


// ---------------------------------------------------------------------------
// Row budgets
// ---------------------------------------------------------------------------

proof fn lemma_loop_rows_bounded(
    items: Seq<Item>,
    i: int,
    end: int,
    cursor: int,
    width: nat,
    height: nat,
    acc: Seq<Seq<SpanView>>,
)
    requires
        acc.len() <= height,
    ensures
        loop_rows_from(items, i, end, cursor, width, height, acc).len() <= height,
        acc.len() <= loop_rows_from(items, i, end, cursor, width, height, acc).len(),
    decreases end - i,
{
    if i < end && acc.len() < height {
        let it = items[i];
        let with_entry = acc.push(entry_line(it, i == cursor, width));
        let with_hint = if i == cursor && it.hint@.len() > 0 && with_entry.len() < height {
            with_entry.push(hint_line(it, width))
        } else {
            with_entry
        };
        lemma_loop_rows_bounded(items, i + 1, end, cursor, width, height, with_hint);
    }
}

/// The open-loops panel never has more rows than fit: an expanded hint is
/// paid for out of the same budget as the items.
pub proof fn loop_rows_fit_the_panel(items: Seq<Item>, offset: int, cursor: int, width: nat, height: nat)
    ensures
        loop_rows(items, offset, cursor, width, height).len() <= height,
{
    let end = if offset + height < items.len() {
        offset + height
    } else {
        items.len() as int
    };
    lemma_loop_rows_bounded(items, offset, end, cursor, width, height, Seq::empty());
}

proof fn lemma_checkout_rows_bounded(
    cos: Seq<Checkout>,
    j: int,
    single: bool,
    width: nat,
    height: nat,
    acc: Seq<Seq<SpanView>>,
)
    requires
        acc.len() <= height,
    ensures
        checkout_rows(cos, j, single, width, height, acc).len() <= height,
    decreases cos.len() - j,
{
    if j < cos.len() && acc.len() < height {
        if !cos[j].is_worktree && single {
            lemma_checkout_rows_bounded(cos, j + 1, single, width, height, acc);
        } else {
            lemma_checkout_rows_bounded(cos, j + 1, single, width, height, acc.push(branch_line(cos[j], width)));
        }
    }
}

proof fn lemma_repo_rows_bounded(repos: Seq<RepoView>, k: int, width: nat, height: nat, acc: Seq<Seq<SpanView>>)
    requires
        acc.len() <= height,
    ensures
        repo_rows_from(repos, k, width, height, acc).len() <= height,
    decreases repos.len() - k,
{
    if k < repos.len() && acc.len() < height {
        let r = repos[k];
        let with_name = acc.push(name_line(r, width));
        let cos = stable_sort(r.checkouts.filter(|c: Checkout| busy(c)));
        lemma_checkout_rows_bounded(cos, 0, r.checkouts.len() == 1, width, height, with_name);
        let with_checkouts = checkout_rows(cos, 0, r.checkouts.len() == 1, width, height, with_name);
        let with_subject = if r.commits.len() > 0 && with_checkouts.len() < height {
            with_checkouts.push(subject_line(r, width))
        } else {
            with_checkouts
        };
        lemma_repo_rows_bounded(repos, k + 1, width, height, with_subject);
    }
}

/// The "moved" panel never has more rows than fit, however many checkouts
/// are busy.
pub proof fn repo_rows_fit_the_panel(repos: Seq<RepoView>, width: nat, height: nat)
    ensures
        repo_rows_from(repos, 0, width, height, Seq::empty()).len() <= height,
{
    lemma_repo_rows_bounded(repos, 0, width, height, Seq::empty());
}


/// A row holding only a hint.
pub open spec fn is_hint_row(r: Seq<SpanView>) -> bool {
    r.len() == 1
}

/// An item's row drawn as the selected one.
pub open spec fn is_selected_row(r: Seq<SpanView>) -> bool {
    r.len() == 2 && r[1].bold
}

/// Every hint row comes right after the selected item's row.
pub open spec fn hints_follow_selection(rows: Seq<Seq<SpanView>>) -> bool {
    forall|k: int| 0 <= k < rows.len() && #[trigger] is_hint_row(rows[k]) ==> k >= 1 && is_selected_row(rows[k - 1])
}

/// At most one row is drawn as selected.
pub open spec fn at_most_one_selected(rows: Seq<Seq<SpanView>>) -> bool {
    forall|a: int, b: int|
        0 <= a < b < rows.len() ==> !(#[trigger] is_selected_row(rows[a]) && #[trigger] is_selected_row(rows[b]))
}

proof fn lemma_one_expansion(
    items: Seq<Item>,
    i: int,
    end: int,
    cursor: int,
    width: nat,
    height: nat,
    acc: Seq<Seq<SpanView>>,
)
    requires
        hints_follow_selection(acc),
        at_most_one_selected(acc),
        forall|k: int| 0 <= k < acc.len() && #[trigger] is_selected_row(acc[k]) ==> i > cursor,
    ensures
        hints_follow_selection(loop_rows_from(items, i, end, cursor, width, height, acc)),
        at_most_one_selected(loop_rows_from(items, i, end, cursor, width, height, acc)),
    decreases end - i,
{
    if i < end && acc.len() < height {
        let it = items[i];
        let entry = entry_line(it, i == cursor, width);
        let with_entry = acc.push(entry);
        let with_hint = if i == cursor && it.hint@.len() > 0 && with_entry.len() < height {
            with_entry.push(hint_line(it, width))
        } else {
            with_entry
        };
        assert(!is_hint_row(entry));
        assert(is_selected_row(entry) == (i == cursor));
        assert(hints_follow_selection(with_hint)) by {
            assert forall|k: int| 0 <= k < with_hint.len() && #[trigger] is_hint_row(with_hint[k]) implies k >= 1
                && is_selected_row(with_hint[k - 1]) by {
                if k < acc.len() {
                    assert(with_hint[k] == acc[k]);
                    if k >= 1 {
                        assert(with_hint[k - 1] == acc[k - 1]);
                    }
                } else if k == acc.len() {
                    assert(with_hint[k] == entry);
                } else {
                    assert(with_hint[k - 1] == entry);
                }
            }
        }
        assert(at_most_one_selected(with_hint)) by {
            assert forall|a: int, b: int| 0 <= a < b < with_hint.len() implies !(#[trigger] is_selected_row(
                with_hint[a],
            ) && #[trigger] is_selected_row(with_hint[b])) by {
                if b < acc.len() {
                    assert(with_hint[a] == acc[a] && with_hint[b] == acc[b]);
                } else if b == acc.len() {
                    assert(with_hint[a] == acc[a]);
                    assert(with_hint[b] == entry);
                } else {
                    assert(!is_selected_row(hint_line(it, width)));
                }
            }
        }
        assert forall|k: int| 0 <= k < with_hint.len() && #[trigger] is_selected_row(with_hint[k]) implies i + 1
            > cursor by {
            if k < acc.len() {
                assert(with_hint[k] == acc[k]);
            } else if k == acc.len() {
                assert(with_hint[k] == entry);
            } else {
                assert(with_hint[k] == hint_line(it, width));
            }
        }
        lemma_one_expansion(items, i + 1, end, cursor, width, height, with_hint);
    }
}

/// Only the selected row expands: a hint row only ever comes right after the
/// selected item's row, and at most one item's row is drawn as selected, so
/// the list never has more than one expanded entry.
pub proof fn only_the_selected_row_expands(items: Seq<Item>, offset: int, cursor: int, width: nat, height: nat)
    ensures
        hints_follow_selection(loop_rows(items, offset, cursor, width, height)),
        at_most_one_selected(loop_rows(items, offset, cursor, width, height)),
{
    let end = if offset + height < items.len() {
        offset + height
    } else {
        items.len() as int
    };
    lemma_one_expansion(items, offset, end, cursor, width, height, Seq::empty());
}


/// Whether a pane `width` by `height` cells has room for the daybook: 54
/// columns and 12 rows at least, else it says it is too small.
pub fn daybook_fits(width: u16, height: u16) -> (r: bool)
    ensures
        r == (width >= 54 && height >= 12),
{
    width >= 54 && height >= 12
}


/// The header reports the document's own numbers, each where it is labelled:
/// the window, then commits, repositories touched, sessions and open pull
/// requests, then merged pull requests and requested reviews when there are
/// any, the requested reviews last. Before a document arrives it shows only
/// the pane's name and an ellipsis.
pub proof fn header_reports_the_totals(d: DocView)
    ensures
        header_spans(None).len() == 2,
        header_spans(None)[1].text == "\u{b7} \u{2026}"@,
        ({
            let s = header_spans(Some(d));
            let t = d.totals;
            &&& s.len() == 3 + (if t.prs_merged > 0 { 1int } else { 0 }) + (if t.reviews_requested > 0 { 1int } else { 0 })
            &&& s[0].text == " daybook "@
            &&& s[1].text == "\u{b7} "@ + (if d.window.label@.len() > 0 { d.window.label@ } else { "\u{2026}"@ })
            &&& s[2].text == "   "@ + decimal_text(t.commits as nat) + " commits in "@ + decimal_text(
                t.repos_touched as nat,
            ) + " repos \u{b7} "@ + decimal_text(t.sessions as nat) + " sessions \u{b7} "@ + decimal_text(
                t.prs_open as nat,
            ) + " PRs open"@
            &&& t.prs_merged > 0 ==> s[3].text == " \u{b7} "@ + decimal_text(t.prs_merged as nat) + " merged"@
                && s[3].color == green()
            &&& t.reviews_requested > 0 ==> s[s.len() - 1].text == " \u{b7} "@ + decimal_text(
                t.reviews_requested as nat,
            ) + " to review"@ && s[s.len() - 1].color == orange()
        }),
{
    reveal_strlit("\u{b7} ");
    reveal_strlit("\u{2026}");
    reveal_strlit("\u{b7} \u{2026}");
    assert(("\u{b7} "@ + "\u{2026}"@) =~= "\u{b7} \u{2026}"@);
}

/// The footer shows the document's age in whole seconds while nothing is
/// being collected, and an error replaces the whole footer with itself, cut
/// to the width.
pub proof fn footer_reports_age_or_error(
    collecting: bool,
    age: nat,
    max_severity: u8,
    net: bool,
    doc: Option<DocView>,
    error: Option<Seq<char>>,
    width: nat,
)
    ensures
        error is None && !collecting ==> footer_spans(collecting, age, max_severity, net, doc, error, width)[1].text
            == "\u{b7} "@ + decimal_text(age) + "s ago "@,
        error is None ==> footer_spans(collecting, age, max_severity, net, doc, error, width).len() >= 2,
        error is None && !net ==> footer_spans(collecting, age, max_severity, net, doc, error, width).contains(
            span("\u{b7} offline "@, orange(), false),
        ),
        error matches Some(e) ==> footer_spans(collecting, age, max_severity, net, doc, error, width) == seq![
            span(" "@ + truncated(e, width) + " \u{2014} q close, r retry"@, red(), false),
        ],
{
    let s = footer_spans(collecting, age, max_severity, net, doc, error, width);
    if error is None && !net {
        let a = seq![span(" q close  r refresh  j/k move  a all  n offline "@, dim(), false)] + (if collecting {
            seq![span("\u{b7} collecting\u{2026} "@, yellow(), false)]
        } else {
            seq![span("\u{b7} "@ + dec(age) + "s ago "@, faint(), false)]
        }) + (if max_severity < 4 {
            seq![span("\u{b7} housekeeping hidden "@, faint(), false)]
        } else {
            Seq::empty()
        });
        assert(s[a.len() as int] == span("\u{b7} offline "@, orange(), false));
    }
}

/// Each row the agents panel shows is the agent in the same position: its
/// status colour, and its title (or its name when it has none) after the
/// head, cut to the rest of the width. It shows the first agents, as many as
/// fit.
pub proof fn agent_rows_follow_the_agents(app: App, width: nat, height: nat)
    ensures
        ({
            let agents = match app.doc_view() {
                Some(d) => d.agents,
                None => Seq::empty(),
            };
            let rows = agent_rows(app, width, height);
            &&& rows.len() == if height < agents.len() { height as int } else { agents.len() as int }
            &&& forall|i: int|
                0 <= i < rows.len() ==> {
                    let a = agents[i];
                    let label = if a.title@.len() == 0 { a.agent@ } else { a.title@ };
                    &&& (#[trigger] rows[i])[0].color == status_rgb_of(status_named(a.status@))
                    &&& rows[i][1].text == truncated(label, less(width, rows[i][0].text.len()))
                    &&& rows[i][0].text == glyph_of(status_named(a.status@)) + " "@ + padded(a.pane_id@, 5) + " "@
                }
        }),
{
}

/// The open-loops panel starts at the scroll offset: when there is an item
/// there and a row for it, the first row is that item's, with its band's mark
/// and its text cut to the width less three columns; no row holds anything
/// but an item's row or the selected item's hint.
pub proof fn loop_rows_start_at_the_offset(items: Seq<Item>, offset: int, cursor: int, width: nat, height: nat)
    requires
        0 <= offset < items.len(),
        height > 0,
    ensures
        loop_rows(items, offset, cursor, width, height).len() >= 1,
        loop_rows(items, offset, cursor, width, height)[0][0].text == mark_of(band_of(items[offset].severity)) + " "@,
        loop_rows(items, offset, cursor, width, height)[0][1].text == truncated(items[offset].text@, less(width, 3)),
        loop_rows(items, offset, cursor, width, height)[0][1].bold == (offset == cursor),
{
    let end = if offset + height < items.len() {
        offset + height
    } else {
        items.len() as int
    };
    let it = items[offset];
    let first = Seq::<Seq<SpanView>>::empty().push(entry_line(it, offset == cursor, width));
    let with_hint = if offset == cursor && it.hint@.len() > 0 && first.len() < height {
        first.push(hint_line(it, width))
    } else {
        first
    };
    lemma_loop_rows_prefix(items, offset + 1, end, cursor, width, height, with_hint);
}

proof fn lemma_loop_rows_prefix(
    items: Seq<Item>,
    i: int,
    end: int,
    cursor: int,
    width: nat,
    height: nat,
    acc: Seq<Seq<SpanView>>,
)
    requires
        acc.len() >= 1,
    ensures
        loop_rows_from(items, i, end, cursor, width, height, acc).len() >= acc.len(),
        loop_rows_from(items, i, end, cursor, width, height, acc)[0] == acc[0],
    decreases end - i,
{
    if i < end && acc.len() < height {
        let it = items[i];
        let with_entry = acc.push(entry_line(it, i == cursor, width));
        let with_hint = if i == cursor && it.hint@.len() > 0 && with_entry.len() < height {
            with_entry.push(hint_line(it, width))
        } else {
            with_entry
        };
        lemma_loop_rows_prefix(items, i + 1, end, cursor, width, height, with_hint);
    }
}


/// A repository's row shows its name first, then one count for each of its
/// commits, dirty files, unpushed commits and others' commits that is not
/// zero, in that order, each as a space, the number, and its mark; the name
/// gets what the counts leave of the width. The panel's first row is the
/// first listed repository's.
pub proof fn repo_rows_report_the_counts(repos: Seq<RepoView>, width: nat, height: nat)
    ensures
        forall|r: RepoView| {
            let counts = seq![
                (r.commits.len(), "\u{25cf}"@),
                (r.dirty as nat, "\u{270e}"@),
                (r.ahead as nat, "\u{2191}"@),
                (r.commits_by_others as nat, "\u{25e6}"@),
            ].filter(|c: (nat, Seq<char>)| c.0 > 0);
            &&& #[trigger] count_spans(r).len() == counts.len()
            &&& forall|k: int|
                0 <= k < counts.len() ==> count_spans(r)[k].text == " "@ + decimal_text(counts[k].0) + counts[k].1
        },
        repos.len() > 0 && height > 0 ==> repo_rows_from(repos, 0, width, height, Seq::empty()).len() >= 1
            && repo_rows_from(repos, 0, width, height, Seq::empty())[0] == name_line(repos[0], width),
{
    assert forall|r: RepoView| {
        let counts = seq![
            (r.commits.len(), "\u{25cf}"@),
            (r.dirty as nat, "\u{270e}"@),
            (r.ahead as nat, "\u{2191}"@),
            (r.commits_by_others as nat, "\u{25e6}"@),
        ].filter(|c: (nat, Seq<char>)| c.0 > 0);
        &&& #[trigger] count_spans(r).len() == counts.len()
        &&& forall|k: int|
            0 <= k < counts.len() ==> count_spans(r)[k].text == " "@ + decimal_text(counts[k].0) + counts[k].1
    } by {
        let all = seq![
            (r.commits.len(), "\u{25cf}"@),
            (r.dirty as nat, "\u{270e}"@),
            (r.ahead as nat, "\u{2191}"@),
            (r.commits_by_others as nat, "\u{25e6}"@),
        ];
        let p = |c: (nat, Seq<char>)| c.0 > 0;
        reveal_with_fuel(Seq::filter, 5);
        assert(all.drop_last() =~= seq![all[0], all[1], all[2]]);
        assert(all.drop_last().drop_last() =~= seq![all[0], all[1]]);
        assert(all.drop_last().drop_last().drop_last() =~= seq![all[0]]);
        assert(all.drop_last().drop_last().drop_last().drop_last() =~= Seq::<(nat, Seq<char>)>::empty());
        let f = all.filter(p);
        let expect = (if r.commits.len() > 0 { seq![all[0]] } else { Seq::empty() }) + (if r.dirty > 0 {
            seq![all[1]]
        } else {
            Seq::empty()
        }) + (if r.ahead > 0 { seq![all[2]] } else { Seq::empty() }) + (if r.commits_by_others > 0 {
            seq![all[3]]
        } else {
            Seq::empty()
        });
        assert(f =~= expect);
    }
    if repos.len() > 0 && height > 0 {
        let r = repos[0];
        let with_name = Seq::<Seq<SpanView>>::empty().push(name_line(r, width));
        let with_checkouts = checkout_rows(
            stable_sort(r.checkouts.filter(|c: Checkout| busy(c))),
            0,
            r.checkouts.len() == 1,
            width,
            height,
            with_name,
        );
        lemma_checkout_rows_prefix(
            stable_sort(r.checkouts.filter(|c: Checkout| busy(c))),
            0,
            r.checkouts.len() == 1,
            width,
            height,
            with_name,
        );
        let with_subject = if r.commits.len() > 0 && with_checkouts.len() < height {
            with_checkouts.push(subject_line(r, width))
        } else {
            with_checkouts
        };
        lemma_repo_rows_prefix(repos, 1, width, height, with_subject);
    }
}

proof fn lemma_checkout_rows_prefix(
    cos: Seq<Checkout>,
    j: int,
    single: bool,
    width: nat,
    height: nat,
    acc: Seq<Seq<SpanView>>,
)
    requires
        acc.len() >= 1,
    ensures
        checkout_rows(cos, j, single, width, height, acc).len() >= acc.len(),
        checkout_rows(cos, j, single, width, height, acc)[0] == acc[0],
    decreases cos.len() - j,
{
    if j < cos.len() && acc.len() < height {
        if !cos[j].is_worktree && single {
            lemma_checkout_rows_prefix(cos, j + 1, single, width, height, acc);
        } else {
            lemma_checkout_rows_prefix(cos, j + 1, single, width, height, acc.push(branch_line(cos[j], width)));
        }
    }
}

proof fn lemma_repo_rows_prefix(repos: Seq<RepoView>, k: int, width: nat, height: nat, acc: Seq<Seq<SpanView>>)
    requires
        acc.len() >= 1,
    ensures
        repo_rows_from(repos, k, width, height, acc).len() >= acc.len(),
        repo_rows_from(repos, k, width, height, acc)[0] == acc[0],
    decreases repos.len() - k,
{
    if k < repos.len() && acc.len() < height {
        let r = repos[k];
        let with_name = acc.push(name_line(r, width));
        let cos = stable_sort(r.checkouts.filter(|c: Checkout| busy(c)));
        lemma_checkout_rows_prefix(cos, 0, r.checkouts.len() == 1, width, height, with_name);
        let with_checkouts = checkout_rows(cos, 0, r.checkouts.len() == 1, width, height, with_name);
        let with_subject = if r.commits.len() > 0 && with_checkouts.len() < height {
            with_checkouts.push(subject_line(r, width))
        } else {
            with_checkouts
        };
        lemma_repo_rows_prefix(repos, k + 1, width, height, with_subject);
    }
}

} // verus!
