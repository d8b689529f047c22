//! What the agent map says: the legend under it, the text inside its boxes,
//! and the plain-text frame printed when there is no terminal.

use vstd::prelude::*;

use crate::layout::{agent_title, agents_of, title_of, Group, GroupNode, GroupView};
use crate::panels::{
    around, bright, dec, emit, joined, less, lines_view, new_span, span, spans_view, texts, Line, Span,
    SpanView,
};
use crate::status::{glyph_of, label_of, status_named, Agent, Status};
use crate::text::{pad_right, padded, truncate, truncated};
use crate::ui::{status_rgb, status_rgb_of, Rgb};

verus! {

/// How many of `agents` report status `s`.
pub open spec fn status_count(agents: Seq<Agent>, s: Status) -> nat
    decreases agents.len(),
{
    if agents.len() == 0 {
        0
    } else {
        status_count(agents.drop_last(), s) + if status_named(agents.last().agent_status@) == s {
            1nat
        } else {
            0nat
        }
    }
}

/// Every agent reports exactly one status: the five counts add up to the
/// number of agents.
pub proof fn status_counts_add_up(agents: Seq<Agent>)
    ensures
        status_count(agents, Status::Blocked) + status_count(agents, Status::Done) + status_count(agents, Status::Working)
            + status_count(agents, Status::Idle) + status_count(agents, Status::Unknown) == agents.len(),
    decreases agents.len(),
{
    if agents.len() > 0 {
        status_counts_add_up(agents.drop_last());
    }
}

/// The grey the legend's trailing note is drawn in.
pub open spec fn legend_grey() -> Rgb {
    Rgb { r: 110, g: 110, b: 110 }
}

/// One status's count in the legend: its glyph and the number of agents in
/// it, in its colour.
pub open spec fn status_tally(agents: Seq<Agent>, s: Status) -> SpanView {
    span(glyph_of(s) + " "@ + dec(status_count(agents, s)) + " "@, status_rgb_of(s), false)
}

/// The legend under the map: how many agents there are, how many are
/// blocked, done, working and idle, and how old the picture is.
pub open spec fn legend_spans(groups: Seq<GroupView>, age_secs: u64) -> Seq<SpanView> {
    let agents = agents_of(groups);
    seq![
        span(" "@ + dec(agents.len()) + " agents "@, bright(), false),
        status_tally(agents, Status::Blocked),
        status_tally(agents, Status::Done),
        status_tally(agents, Status::Working),
        status_tally(agents, Status::Idle),
        span("\u{b7} updated "@ + dec(age_secs as nat) + "s ago \u{2014} q close, r refresh"@, legend_grey(), false),
    ]
}

/// Some groups as values.
pub open spec fn groups_view(groups: Seq<Group>) -> Seq<GroupView> {
    groups.map_values(|g: Group| g@)
}

/// How many agents some groups hold, and how many of them report each status.
fn tally(groups: &[Group]) -> (out: (usize, usize, usize, usize, usize))
    requires
        agents_of(groups_view(groups@)).len() <= usize::MAX,
    ensures
        out.0 == agents_of(groups_view(groups@)).len(),
        out.1 == status_count(agents_of(groups_view(groups@)), Status::Blocked),
        out.2 == status_count(agents_of(groups_view(groups@)), Status::Done),
        out.3 == status_count(agents_of(groups_view(groups@)), Status::Working),
        out.4 == status_count(agents_of(groups_view(groups@)), Status::Idle),
{
    let ghost gv = groups_view(groups@);
    let mut total: usize = 0;
    let mut blocked: usize = 0;
    let mut done: usize = 0;
    let mut working: usize = 0;
    let mut idle: usize = 0;
    let mut g: usize = 0;
    assert(gv.take(0) =~= Seq::<GroupView>::empty());
    while g < groups.len()
        invariant
            g <= groups.len(),
            gv == groups_view(groups@),
            agents_of(gv).len() <= usize::MAX,
            total == agents_of(gv.take(g as int)).len(),
            blocked == status_count(agents_of(gv.take(g as int)), Status::Blocked),
            done == status_count(agents_of(gv.take(g as int)), Status::Done),
            working == status_count(agents_of(gv.take(g as int)), Status::Working),
            idle == status_count(agents_of(gv.take(g as int)), Status::Idle),
        decreases groups.len() - g,
    {
        let ghost before = agents_of(gv.take(g as int));
        let agents = &groups[g].agents;
        proof {
            lemma_agents_prefix(gv, g as int + 1);
            assert(gv[g as int].agents == agents@);
        }
        let mut i: usize = 0;
        assert(before + agents@.take(0) =~= before);
        while i < agents.len()
            invariant
                i <= agents.len(),
                (before + agents@).len() <= usize::MAX,
                total == (before + agents@.take(i as int)).len(),
                blocked == status_count(before + agents@.take(i as int), Status::Blocked),
                done == status_count(before + agents@.take(i as int), Status::Done),
                working == status_count(before + agents@.take(i as int), Status::Working),
                idle == status_count(before + agents@.take(i as int), Status::Idle),
            decreases agents.len() - i,
        {
            let s = Status::parse(agents[i].agent_status.as_str());
            proof {
                let now = before + agents@.take(i + 1);
                assert(now.drop_last() =~= before + agents@.take(i as int));
                assert(now.last() == agents@[i as int]);
                lemma_count_bounded(before + agents@.take(i as int), Status::Blocked);
                lemma_count_bounded(before + agents@.take(i as int), Status::Done);
                lemma_count_bounded(before + agents@.take(i as int), Status::Working);
                lemma_count_bounded(before + agents@.take(i as int), Status::Idle);
            }
            total = total + 1;
            match s {
                Status::Blocked => blocked = blocked + 1,
                Status::Done => done = done + 1,
                Status::Working => working = working + 1,
                Status::Idle => idle = idle + 1,
                Status::Unknown => {},
            }
            i = i + 1;
        }
        assert(agents@.take(agents.len() as int) =~= agents@);
        g = g + 1;
    }
    assert(gv.take(groups.len() as int) =~= gv);
    (total, blocked, done, working, idle)
}

/// A count of some agents is at most how many there are.
proof fn lemma_count_bounded(agents: Seq<Agent>, s: Status)
    ensures
        status_count(agents, s) <= agents.len(),
    decreases agents.len(),
{
    if agents.len() > 0 {
        lemma_count_bounded(agents.drop_last(), s);
    }
}

/// The agents of a prefix of the groups, and how they grow by one group.
proof fn lemma_agents_prefix(groups: Seq<GroupView>, g: int)
    requires
        0 < g <= groups.len(),
    ensures
        agents_of(groups.take(g)) == agents_of(groups.take(g - 1)) + groups[g - 1].agents,
        agents_of(groups.take(g)).len() <= agents_of(groups).len(),
    decreases groups.len() - g,
{
    assert(groups.take(g).drop_last() =~= groups.take(g - 1));
    if g < groups.len() {
        lemma_agents_prefix(groups, g + 1);
    } else {
        assert(groups.take(g) =~= groups);
    }
}

fn tally_span(s: Status, n: usize) -> (out: Span)
    ensures
        out@ == span(glyph_of(s) + " "@ + dec(n as nat) + " "@, status_rgb_of(s), false),
{
    let text = around(joined(String::from_str(s.glyph()), " ").as_str(), n as u64, " ");
    new_span(text, status_rgb(s), false)
}

/// The legend line, `age_secs` seconds after the last fetch.
pub fn legend(groups: &[Group], age_secs: u64) -> (out: Vec<Span>)
    requires
        agents_of(groups_view(groups@)).len() <= usize::MAX,
    ensures
        spans_view(out@) == legend_spans(groups_view(groups@), age_secs),
{
    let (total, blocked, done, working, idle) = tally(groups);
    let mut out: Vec<Span> = Vec::new();
    out.push(new_span(around(" ", total as u64, " agents "), Rgb { r: 224, g: 224, b: 224 }, false));
    out.push(tally_span(Status::Blocked, blocked));
    out.push(tally_span(Status::Done, done));
    out.push(tally_span(Status::Working, working));
    out.push(tally_span(Status::Idle, idle));
    out.push(new_span(around("\u{b7} updated ", age_secs, "s ago \u{2014} q close, r refresh"), Rgb { r: 110, g: 110, b: 110 }, false));
    assert(spans_view(out@) =~= legend_spans(groups_view(groups@), age_secs));
    out
}


// ---------------------------------------------------------------------------
// Inside the boxes
// ---------------------------------------------------------------------------

/// A group's box: its label cut to the box's inner width, bright and bold,
/// then how many agents it holds.
pub open spec fn group_box_spans(g: GroupNode) -> Seq<SpanView> {
    seq![
        span(truncated(g.label@, less(g.rect.w as nat, 4)), bright(), true),
        span(" "@ + dec(g.agent_count as nat), crate::panels::dim(), false),
    ]
}

/// The text inside a group's box.
pub fn group_box(g: &GroupNode) -> (out: Vec<Span>)
    ensures
        spans_view(out@) == group_box_spans(*g),
{
    let mut out: Vec<Span> = Vec::new();
    out.push(new_span(truncate(g.label.as_str(), g.rect.w.saturating_sub(4) as usize), Rgb { r: 224, g: 224, b: 224 }, true));
    out.push(new_span(around(" ", g.agent_count as u64, ""), Rgb { r: 124, g: 124, b: 124 }, false));
    proof {
        reveal_strlit("");
    }
    assert(spans_view(out@) =~= group_box_spans(*g));
    out
}

/// How an agent's box looks: its border, whether the border is heavy, and its
/// two lines of text.
#[derive(Debug)]
pub struct AgentBox {
    pub border: Rgb,
    pub thick: bool,
    pub lines: Vec<Line>,
}

/// An agent box's two lines: the status glyph and the workspace, then the
/// title in the given grey, each cut to the box's inner width.
pub open spec fn agent_box_lines(status: Status, workspace: Seq<char>, title: Seq<char>, w: nat, shade: u8) -> Seq<
    Seq<SpanView>,
> {
    let inner = less(w, 2);
    seq![
        seq![
            span(glyph_of(status) + " "@, status_rgb_of(status), false),
            span(truncated(workspace, less(inner, 2)), crate::panels::body(), false),
        ],
        seq![span(truncated(title, inner), Rgb { r: shade, g: shade, b: shade }, false)],
    ]
}

/// An agent's box `w` columns wide. The focused agent gets a heavy bright
/// border; the others a light one in their status colour. `shade` is the grey
/// of the title, which fades with how long ago the agent last changed state.
pub fn agent_box(status: Status, focused: bool, workspace: &str, title: &str, w: u16, shade: u8) -> (out: AgentBox)
    ensures
        out.border == (if focused {
            bright()
        } else {
            status_rgb_of(status)
        }),
        out.thick == focused,
        lines_view(out.lines@) == agent_box_lines(status, workspace@, title@, w as nat, shade),
{
    let inner = w.saturating_sub(2) as usize;
    let mut first: Vec<Span> = Vec::new();
    first.push(new_span(joined(String::from_str(status.glyph()), " "), status_rgb(status), false));
    first.push(new_span(truncate(workspace, inner.saturating_sub(2)), Rgb { r: 196, g: 196, b: 196 }, false));
    let mut second: Vec<Span> = Vec::new();
    second.push(new_span(truncate(title, inner), Rgb { r: shade, g: shade, b: shade }, false));
    let ghost inner_w = less(w as nat, 2);
    assert(spans_view(first@) =~= seq![
        span(glyph_of(status) + " "@, status_rgb_of(status), false),
        span(truncated(workspace@, less(inner_w, 2)), crate::panels::body(), false),
    ]);
    assert(spans_view(second@) =~= seq![span(truncated(title@, inner_w), Rgb { r: shade, g: shade, b: shade }, false)]);
    let mut lines: Vec<Line> = Vec::new();
    lines.push(Line { spans: first });
    lines.push(Line { spans: second });
    assert(lines_view(lines@) =~= agent_box_lines(status, workspace@, title@, w as nat, shade));
    let border = if focused {
        Rgb { r: 224, g: 224, b: 224 }
    } else {
        status_rgb(status)
    };
    AgentBox { border, thick: focused, lines }
}

// ---------------------------------------------------------------------------
// The plain-text frame
// ---------------------------------------------------------------------------

/// An agent's line: glyph, status name in 7 columns, workspace in 10, title.
pub open spec fn map_agent_line(a: Agent) -> Seq<char> {
    let st = status_named(a.agent_status@);
    "  "@ + glyph_of(st) + " "@ + padded(label_of(st), 7) + " "@ + padded(a.workspace_id@, 10) + " "@ + title_of(a)
}

/// A group's lines: its label and size, one line per agent, and an empty line.
pub open spec fn group_text(g: GroupView) -> Seq<Seq<char>> {
    seq![g.label + " ("@ + dec(g.agents.len()) + ")"@] + g.agents.map_values(|a: Agent| map_agent_line(a)) + seq![
        Seq::empty(),
    ]
}

/// The lines of some groups, in order.
pub open spec fn groups_text(groups: Seq<GroupView>) -> Seq<Seq<char>>
    decreases groups.len(),
{
    if groups.len() == 0 {
        Seq::empty()
    } else {
        groups_text(groups.drop_last()) + group_text(groups.last())
    }
}

/// The plain-text map: how many agents across how many groups, an empty line,
/// then each group.
pub open spec fn map_text(groups: Seq<GroupView>) -> Seq<Seq<char>> {
    seq![dec(agents_of(groups).len()) + " agent(s) across "@ + dec(groups.len()) + " group(s)"@, Seq::empty()]
        + groups_text(groups)
}

fn map_agent_text(a: &Agent) -> (s: String)
    ensures
        s@ == map_agent_line(*a),
{
    let st = Status::parse(a.agent_status.as_str());
    let s = joined(String::from_str("  "), st.glyph());
    let s = joined(s, " ");
    let s = joined(s, pad_right(st.label(), 7).as_str());
    let s = joined(s, " ");
    let s = joined(s, pad_right(a.workspace_id.as_str(), 10).as_str());
    let s = joined(s, " ");
    joined(s, agent_title(a).as_str())
}

/// The plain-text map, line by line.
pub fn map_lines(groups: &[Group]) -> (out: Vec<String>)
    requires
        agents_of(groups_view(groups@)).len() <= usize::MAX,
    ensures
        texts(out@) == map_text(groups_view(groups@)),
{
    let ghost gv = groups_view(groups@);
    let (total, _, _, _, _) = tally(groups);
    let mut out: Vec<String> = Vec::new();
    let head = around("", total as u64, " agent(s) across ");
    emit(&mut out, around(head.as_str(), groups.len() as u64, " group(s)"));
    emit(&mut out, String::new());
    proof {
        reveal_strlit("");
        assert(texts(out@) =~= seq![
            dec(agents_of(gv).len()) + " agent(s) across "@ + dec(gv.len()) + " group(s)"@,
            Seq::<char>::empty(),
        ]);
    }
    let ghost start = texts(out@);
    let mut g: usize = 0;
    assert(gv.take(0) =~= Seq::<GroupView>::empty());
    while g < groups.len()
        invariant
            g <= groups.len(),
            gv == groups_view(groups@),
            texts(out@) == start + groups_text(gv.take(g as int)),
        decreases groups.len() - g,
    {
        let group = &groups[g];
        let ghost before = texts(out@);
        emit(&mut out, around(joined(group.label.clone(), " (").as_str(), group.agents.len() as u64, ")"));
        let ghost after_label = texts(out@);
        let mut i: usize = 0;
        while i < group.agents.len()
            invariant
                i <= group.agents.len(),
                texts(out@) == after_label + group.agents@.take(i as int).map_values(|a: Agent| map_agent_line(a)),
            decreases group.agents.len() - i,
        {
            emit(&mut out, map_agent_text(&group.agents[i]));
            assert(group.agents@.take(i + 1).map_values(|a: Agent| map_agent_line(a)) =~= group.agents@.take(
                i as int,
            ).map_values(|a: Agent| map_agent_line(a)).push(map_agent_line(group.agents@[i as int])));
            i = i + 1;
        }
        emit(&mut out, String::new());
        proof {
            assert(group.agents@.take(group.agents.len() as int) =~= group.agents@);
            assert(gv[g as int] == group@);
            assert(gv.take(g + 1).drop_last() =~= gv.take(g as int));
            assert(texts(out@) =~= before + group_text(group@));
        }
        g = g + 1;
    }
    assert(gv.take(groups.len() as int) =~= gv);
    out
}


// ---------------------------------------------------------------------------
// The event loop's decisions
// ---------------------------------------------------------------------------

/// How often the map fetches again on its own, in milliseconds. herdr pushes
/// no "agent changed" signal, so the map polls; every 2s feels live without
/// hammering the socket.
pub const MAP_REFRESH_MS: u64 = 2000;

/// The longest the map waits for a key before looking at the clock again, so
/// `q` stays responsive without spinning.
pub const MAP_POLL_MS: u64 = 250;

/// Keys the map acts on.
#[derive(Debug, Clone, Copy, PartialEq, Eq, Structural)]
pub enum MapKey {
    /// `q` or `Esc`.
    Quit,
    /// `r`: fetch again now.
    Refresh,
    /// Anything else.
    Other,
}

/// What the map does next.
#[derive(Debug, Clone, Copy, PartialEq, Eq, Structural)]
pub enum MapStep {
    /// Close the map.
    Quit,
    /// Fetch workspaces and agents again and redraw.
    Fetch,
    /// Wait this long for a key.
    Wait { millis: u64 },
}

/// The next step given the key pressed, if any, and how long ago the last
/// fetch was: `q` quits, `r` fetches; otherwise a fetch once the refresh
/// interval has passed, else a wait until then, at most a poll interval.
pub fn map_step(key: Option<MapKey>, since_fetch_ms: u64) -> (s: MapStep)
    ensures
        key == Some(MapKey::Quit) ==> s == MapStep::Quit,
        key == Some(MapKey::Refresh) ==> s == MapStep::Fetch,
        key != Some(MapKey::Quit) && key != Some(MapKey::Refresh) ==> s == if since_fetch_ms >= MAP_REFRESH_MS {
            MapStep::Fetch
        } else {
            MapStep::Wait {
                millis: if MAP_REFRESH_MS - since_fetch_ms <= MAP_POLL_MS {
                    (MAP_REFRESH_MS - since_fetch_ms) as u64
                } else {
                    MAP_POLL_MS
                },
            }
        },
{
    match key {
        Some(MapKey::Quit) => MapStep::Quit,
        Some(MapKey::Refresh) => MapStep::Fetch,
        _ => {
            if since_fetch_ms >= MAP_REFRESH_MS {
                MapStep::Fetch
            } else {
                let left = MAP_REFRESH_MS - since_fetch_ms;
                MapStep::Wait { millis: if left <= MAP_POLL_MS { left } else { MAP_POLL_MS } }
            }
        },
    }
}

/// Whether a pane `width` by `height` cells has room for the map: 30 columns
/// and 6 rows at least, else it says it is too small.
pub fn map_fits(width: u16, height: u16) -> (r: bool)
    ensures
        r == (width >= 30 && height >= 6),
{
    width >= 30 && height >= 6
}

} // verus!
