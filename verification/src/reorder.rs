//! Reordering herdr workspaces from the keyboard: the index arithmetic and the
//! decision each key leads to. The server is the authority on the resulting
//! order, so after every move the caller re-reads the list.

use vstd::prelude::*;

use crate::panels::{around, bright, dim, joined, lines_view, new_span, span, spans_view, texts, emit, Line, Span, SpanView};
use crate::status::{glyph_of, status_named, Status, Workspace};
use crate::text::{decimal_text, pad_left, pad_right, padded, padded_left};
use crate::ui::{status_rgb, status_rgb_of, Rgb};

verus! {

/// Where an item at `from` lands when shifted by `delta` in a list of `len`,
/// if it stays inside the list.
pub open spec fn shifted(from: int, delta: int, len: int) -> Option<int> {
    let to = from + delta;
    if len == 0 || to < 0 || to >= len {
        None
    } else {
        Some(to)
    }
}

/// Destination index when shifting the item at `from` by `delta`, or `None`
/// when that would run off either end.
pub fn shift_target(from: usize, delta: isize, len: usize) -> (r: Option<usize>)
    ensures
        match shifted(from as int, delta as int, len as int) {
            Some(to) => r == Some(to as usize) && to < len,
            None => r is None,
        },
        r matches Some(to) ==> to == from + delta && to < len,
        r is None <==> (from + delta < 0 || from + delta >= len),
{
    if len == 0 {
        return None;
    }
    let to: i128 = from as i128 + delta as i128;
    if to < 0 || to >= len as i128 {
        return None;
    }
    Some(to as usize)
}

/// Shifting an item and then shifting it back by the same amount returns it
/// to where it was.
pub proof fn shift_round_trips(from: int, delta: int, len: int)
    requires
        0 <= from < len,
        shifted(from, delta, len) is Some,
    ensures
        shifted(shifted(from, delta, len)->0, -delta, len) == Some(from),
{
}

/// The row under the cursor after moving down: one further, but not past the
/// last row.
pub open spec fn row_below(cur: int, len: int) -> int {
    let last = if len >= 1 { len - 1 } else { 0 };
    if cur + 1 <= last {
        cur + 1
    } else {
        last
    }
}

/// Move the cursor down one row.
pub fn cursor_down(cur: usize, len: usize) -> (r: usize)
    ensures
        r == row_below(cur as int, len as int),
{
    let last = if len >= 1 { len - 1 } else { 0 };
    if cur >= last {
        last
    } else {
        cur + 1
    }
}

/// Move the cursor up one row, stopping at the top.
pub fn cursor_up(cur: usize) -> (r: usize)
    ensures
        r == if cur >= 1 { cur - 1 } else { 0 },
{
    if cur >= 1 {
        cur - 1
    } else {
        0
    }
}

/// Index of the first focused workspace.
pub open spec fn first_focused(rows: Seq<Workspace>) -> Option<int>
    decreases rows.len(),
{
    if rows.len() == 0 {
        None
    } else if rows[0].focused {
        Some(0)
    } else {
        match first_focused(rows.drop_first()) {
            Some(i) => Some(i + 1),
            None => None,
        }
    }
}

/// Where the cursor starts: on the focused workspace, or the first row.
pub fn start_row(rows: &[Workspace]) -> (r: usize)
    ensures
        r == match first_focused(rows@) {
            Some(i) => i,
            None => 0,
        },
        (r < rows@.len() && rows@[r as int].focused && forall|k: int| 0 <= k < r ==> !(#[trigger] rows@[k]).focused)
            || (r == 0 && forall|k: int| 0 <= k < rows@.len() ==> !(#[trigger] rows@[k]).focused),
{
    let mut i: usize = 0;
    while i < rows.len()
        invariant
            i <= rows@.len(),
            forall|k: int| 0 <= k < i ==> !(#[trigger] rows@[k]).focused,
        decreases rows.len() - i,
    {
        if rows[i].focused {
            proof {
                lemma_first_focused_at(rows@, i as int);
            }
            return i;
        }
        i = i + 1;
    }
    proof {
        lemma_first_focused_none(rows@);
    }
    0
}

proof fn lemma_first_focused_at(rows: Seq<Workspace>, i: int)
    requires
        0 <= i < rows.len(),
        rows[i].focused,
        forall|k: int| 0 <= k < i ==> !(#[trigger] rows[k]).focused,
    ensures
        first_focused(rows) == Some(i),
    decreases i,
{
    if i > 0 {
        assert forall|k: int| 0 <= k < i - 1 implies !(#[trigger] rows.drop_first()[k]).focused by {
            assert(rows.drop_first()[k] == rows[k + 1]);
        }
        lemma_first_focused_at(rows.drop_first(), i - 1);
    }
}

proof fn lemma_first_focused_none(rows: Seq<Workspace>)
    requires
        forall|k: int| 0 <= k < rows.len() ==> !(#[trigger] rows[k]).focused,
    ensures
        first_focused(rows) is None,
    decreases rows.len(),
{
    if rows.len() > 0 {
        assert forall|k: int| 0 <= k < rows.len() - 1 implies !(#[trigger] rows.drop_first()[k]).focused by {
            assert(rows.drop_first()[k] == rows[k + 1]);
        }
        lemma_first_focused_none(rows.drop_first());
    }
}

/// Keys the reorder pane acts on.
#[derive(Debug, Clone, Copy, PartialEq, Eq, Structural)]
pub enum OrderKey {
    /// `q` or `Esc`.
    Quit,
    /// `j` or down, without shift.
    Down,
    /// `k` or up, without shift.
    Up,
    /// `J`: move the selected workspace down.
    ShiftDown,
    /// `K`: move the selected workspace up.
    ShiftUp,
    /// `Enter`: focus the selected workspace and close.
    Focus,
    /// Anything else.
    Other,
}

/// What the reorder pane does next.
#[derive(Debug, Clone, Copy, PartialEq, Eq, Structural)]
pub enum OrderStep {
    /// Close the pane.
    Quit,
    /// Put the cursor on this row.
    Cursor(usize),
    /// Ask the server to move the workspace at `from` to `to`; on success the
    /// cursor follows it to `to`.
    Move { from: usize, to: usize },
    /// Focus the workspace at this row, then close.
    FocusAndQuit(usize),
    /// Nothing to do.
    Stay,
}

/// The step a key leads to with the cursor at `cur` over `len` rows.
pub open spec fn order_step(key: OrderKey, cur: int, len: int) -> OrderStep {
    match key {
        OrderKey::Quit => OrderStep::Quit,
        OrderKey::Down => OrderStep::Cursor(row_below(cur, len) as usize),
        OrderKey::Up => OrderStep::Cursor((if cur >= 1 { cur - 1 } else { 0 }) as usize),
        OrderKey::ShiftDown => match shifted(cur, 1, len) {
            Some(to) => OrderStep::Move { from: cur as usize, to: to as usize },
            None => OrderStep::Stay,
        },
        OrderKey::ShiftUp => match shifted(cur, -1, len) {
            Some(to) => OrderStep::Move { from: cur as usize, to: to as usize },
            None => OrderStep::Stay,
        },
        OrderKey::Focus => if cur < len {
            OrderStep::FocusAndQuit(cur as usize)
        } else {
            OrderStep::Quit
        },
        OrderKey::Other => OrderStep::Stay,
    }
}

/// Decide what a key does with the cursor at `cur` over `len` rows.
pub fn decide(key: OrderKey, cur: usize, len: usize) -> (step: OrderStep)
    ensures
        step == order_step(key, cur as int, len as int),
        key == OrderKey::ShiftUp && 0 < cur < len ==> step == (OrderStep::Move { from: cur, to: (cur - 1) as usize }),
        key == OrderKey::ShiftDown && cur + 1 < len ==> step == (OrderStep::Move { from: cur, to: (cur + 1) as usize }),
{
    match key {
        OrderKey::Quit => OrderStep::Quit,
        OrderKey::Down => OrderStep::Cursor(cursor_down(cur, len)),
        OrderKey::Up => OrderStep::Cursor(cursor_up(cur)),
        OrderKey::ShiftDown => match shift_target(cur, 1, len) {
            Some(to) => OrderStep::Move { from: cur, to },
            None => OrderStep::Stay,
        },
        OrderKey::ShiftUp => match shift_target(cur, -1, len) {
            Some(to) => OrderStep::Move { from: cur, to },
            None => OrderStep::Stay,
        },
        OrderKey::Focus => if cur < len {
            OrderStep::FocusAndQuit(cur)
        } else {
            OrderStep::Quit
        },
        OrderKey::Other => OrderStep::Stay,
    }
}

/// Every move the pane asks for stays inside the list.
pub proof fn moves_stay_in_the_list(key: OrderKey, cur: usize, len: usize)
    ensures
        order_step(key, cur as int, len as int) matches OrderStep::Move { from, to } ==> to < len
            && from == cur,
{
}


// ---------------------------------------------------------------------------
// What the pane shows
// ---------------------------------------------------------------------------

/// The text colour of rows that are not selected.
pub open spec fn row_text() -> Rgb {
    Rgb { r: 208, g: 208, b: 208 }
}

/// A workspace's row: a pointer when it is selected, its status glyph in the
/// status colour, its label in 28 columns, then its id in 4 columns and its
/// tab count, dimmed.
pub open spec fn workspace_row(w: Workspace, selected: bool) -> Seq<SpanView> {
    let st = status_named(w.agent_status@);
    let fg = if selected {
        bright()
    } else {
        row_text()
    };
    seq![
        span(if selected { " \u{25b8} "@ } else { "   "@ }, fg, false),
        span(glyph_of(st) + " "@, status_rgb_of(st), false),
        span(padded(w.label@, 28), fg, false),
        span(" "@ + padded(w.workspace_id@, 4) + " "@ + decimal_text(w.tab_count as nat) + " tab(s)"@, dim(), false),
    ]
}

/// A row of the list, and whether it is the selected one (drawn on a
/// highlighted background).
#[derive(Debug)]
pub struct Row {
    pub selected: bool,
    pub line: Line,
}

/// The list's rows, the cursor on row `cursor`.
pub fn workspace_rows(rows: &[Workspace], cursor: usize) -> (out: Vec<Row>)
    ensures
        out@.len() == rows@.len(),
        forall|i: int|
            0 <= i < rows@.len() ==> (#[trigger] out@[i]).selected == (i == cursor) && out@[i].line@ == workspace_row(
                rows@[i],
                i == cursor,
            ),
{
    let mut out: Vec<Row> = Vec::new();
    let mut i: usize = 0;
    while i < rows.len()
        invariant
            i <= rows.len(),
            out@.len() == i,
            forall|j: int|
                0 <= j < i ==> (#[trigger] out@[j]).selected == (j == cursor) && out@[j].line@ == workspace_row(
                    rows@[j],
                    j == cursor,
                ),
        decreases rows.len() - i,
    {
        let w = &rows[i];
        let selected = i == cursor;
        let st = Status::parse(w.agent_status.as_str());
        let fg = if selected {
            Rgb { r: 224, g: 224, b: 224 }
        } else {
            Rgb { r: 208, g: 208, b: 208 }
        };
        let pointer = if selected {
            String::from_str(" \u{25b8} ")
        } else {
            String::from_str("   ")
        };
        let mut spans: Vec<Span> = Vec::new();
        spans.push(new_span(pointer, fg, false));
        spans.push(new_span(joined(String::from_str(st.glyph()), " "), status_rgb(st), false));
        spans.push(new_span(pad_right(w.label.as_str(), 28), fg, false));
        let tail = joined(String::from_str(" "), pad_right(w.workspace_id.as_str(), 4).as_str());
        let tail = around(joined(tail, " ").as_str(), w.tab_count as u64, " tab(s)");
        spans.push(new_span(tail, Rgb { r: 124, g: 124, b: 124 }, false));
        assert(spans_view(spans@) =~= workspace_row(*w, selected));
        out.push(Row { selected, line: Line { spans } });
        i = i + 1;
    }
    out
}

/// The footer: the error from the last move when there is one, in red,
/// otherwise the keys.
pub open spec fn order_footer(err: Option<Seq<char>>) -> SpanView {
    match err {
        Some(e) => span(" "@ + e, Rgb { r: 247, g: 118, b: 142 }, false),
        None => span(
            " j/k move cursor \u{b7} J/K move workspace \u{b7} \u{23ce} focus \u{b7} q quit"@,
            Rgb { r: 110, g: 110, b: 110 },
            false,
        ),
    }
}

/// The footer line.
pub fn footer_span(err: Option<&str>) -> (s: Span)
    ensures
        s@ == order_footer(match err {
            Some(e) => Some(e@),
            None => None,
        }),
{
    match err {
        Some(e) => new_span(joined(String::from_str(" "), e), Rgb { r: 247, g: 118, b: 142 }, false),
        None => new_span(
            String::from_str(" j/k move cursor \u{b7} J/K move workspace \u{b7} \u{23ce} focus \u{b7} q quit"),
            Rgb { r: 110, g: 110, b: 110 },
            false,
        ),
    }
}

/// The plain listing printed when there is no terminal: each workspace's
/// position right-aligned in 2 columns, its id in 6, then its label.
pub open spec fn listing(rows: Seq<Workspace>) -> Seq<Seq<char>> {
    Seq::new(
        rows.len(),
        |i: int| padded_left(decimal_text(i as nat), 2) + "  "@ + padded(rows[i].workspace_id@, 6) + " "@ + rows[i].label@,
    )
}

/// The plain listing, line by line.
pub fn listing_lines(rows: &[Workspace]) -> (out: Vec<String>)
    ensures
        texts(out@) == listing(rows@),
{
    let mut out: Vec<String> = Vec::new();
    let mut i: usize = 0;
    while i < rows.len()
        invariant
            i <= rows.len(),
            texts(out@) == listing(rows@).take(i as int),
        decreases rows.len() - i,
    {
        let w = &rows[i];
        let s = joined(pad_left(crate::text::decimal(i as u64).as_str(), 2), "  ");
        let s = joined(s, pad_right(w.workspace_id.as_str(), 6).as_str());
        let s = joined(s, " ");
        let s = joined(s, w.label.as_str());
        emit(&mut out, s);
        assert(listing(rows@).take(i + 1) =~= listing(rows@).take(i as int).push(listing(rows@)[i as int]));
        i = i + 1;
    }
    assert(listing(rows@).take(rows.len() as int) =~= listing(rows@));
    out
}


/// `K` and `J` move the selected workspace exactly one row, and only while it
/// has a neighbour that way; `j` and `k` move the cursor one row, stopping at
/// either end; `Enter` focuses the row under the cursor.
pub proof fn keys_move_by_one_row(cur: usize, len: usize)
    requires
        cur < len,
    ensures
        cur > 0 ==> order_step(OrderKey::ShiftUp, cur as int, len as int) == (OrderStep::Move {
            from: cur,
            to: (cur - 1) as usize,
        }),
        cur == 0 ==> order_step(OrderKey::ShiftUp, cur as int, len as int) == OrderStep::Stay,
        cur + 1 < len ==> order_step(OrderKey::ShiftDown, cur as int, len as int) == (OrderStep::Move {
            from: cur,
            to: (cur + 1) as usize,
        }),
        cur + 1 == len ==> order_step(OrderKey::ShiftDown, cur as int, len as int) == OrderStep::Stay,
        order_step(OrderKey::Down, cur as int, len as int) == OrderStep::Cursor(
            if cur + 1 < len { (cur + 1) as usize } else { cur },
        ),
        order_step(OrderKey::Up, cur as int, len as int) == OrderStep::Cursor(
            if cur > 0 { (cur - 1) as usize } else { 0 },
        ),
        order_step(OrderKey::Focus, cur as int, len as int) == OrderStep::FocusAndQuit(cur),
        order_step(OrderKey::Quit, cur as int, len as int) == OrderStep::Quit,
{
}

} // verus!
