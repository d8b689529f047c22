//! The daybook's screen arithmetic and the shared palette. Drawing itself is
//! the terminal's business; what is decided here is which rows are on screen
//! and which colour means what.

use vstd::prelude::*;

use crate::model::Severity;
use crate::status::Status;

verus! {

/// An RGB colour.
#[derive(Debug, Clone, Copy, PartialEq, Eq, Structural)]
pub struct Rgb {
    pub r: u8,
    pub g: u8,
    pub b: u8,
}

/// The colour of an attention band.
pub open spec fn band_color(s: Severity) -> Rgb {
    match s {
        Severity::Blocked => Rgb { r: 247, g: 118, b: 142 },
        Severity::Waiting => Rgb { r: 255, g: 158, b: 100 },
        Severity::Loose => Rgb { r: 224, g: 175, b: 104 },
        Severity::Tidy => Rgb { r: 124, g: 124, b: 124 },
    }
}

/// The colour of an agent status, as herdr's sidebar shows it.
pub open spec fn status_rgb_of(s: Status) -> Rgb {
    match s {
        Status::Blocked => Rgb { r: 247, g: 118, b: 142 },
        Status::Done => Rgb { r: 255, g: 158, b: 100 },
        Status::Working => Rgb { r: 224, g: 175, b: 104 },
        Status::Idle => Rgb { r: 66, g: 190, b: 101 },
        Status::Unknown => Rgb { r: 124, g: 124, b: 124 },
    }
}

/// The colour an attention band is drawn in.
pub fn severity_color(s: Severity) -> (c: Rgb)
    ensures
        c == band_color(s),
{
    match s {
        Severity::Blocked => Rgb { r: 247, g: 118, b: 142 },
        Severity::Waiting => Rgb { r: 255, g: 158, b: 100 },
        Severity::Loose => Rgb { r: 224, g: 175, b: 104 },
        Severity::Tidy => Rgb { r: 124, g: 124, b: 124 },
    }
}

/// The colour an agent status is drawn in. A blocked agent is the same red in
/// the sidebar, the map, and the daybook.
pub fn status_rgb(s: Status) -> (c: Rgb)
    ensures
        c == status_rgb_of(s),
{
    match s {
        Status::Blocked => Rgb { r: 247, g: 118, b: 142 },
        Status::Done => Rgb { r: 255, g: 158, b: 100 },
        Status::Working => Rgb { r: 224, g: 175, b: 104 },
        Status::Idle => Rgb { r: 66, g: 190, b: 101 },
        Status::Unknown => Rgb { r: 124, g: 124, b: 124 },
    }
}

/// The colour of an agent status given by its wire name.
pub fn status_color(status: &str) -> (c: Rgb)
    ensures
        c == status_rgb_of(crate::status::status_named(status@)),
{
    status_rgb(Status::parse(status))
}

/// No two attention bands share a colour.
pub proof fn band_colors_are_distinct(a: Severity, b: Severity)
    ensures
        band_color(a) == band_color(b) ==> a == b,
{
}

/// An agent that needs the user is drawn in the colour of the matching band:
/// blocked in the stuck red, done in the waiting orange, unknown in the quiet grey.
pub proof fn agent_colors_agree_with_bands()
    ensures
        status_rgb_of(Status::Blocked) == band_color(Severity::Blocked),
        status_rgb_of(Status::Done) == band_color(Severity::Waiting),
        status_rgb_of(Status::Unknown) == band_color(Severity::Tidy),
{
}

// ---------------------------------------------------------------------------
// Scrolling
// ---------------------------------------------------------------------------

/// Rows of a list window once the selected row's hint takes one of them.
pub open spec fn usable_rows(height: int) -> int {
    if height - 1 >= 1 {
        height - 1
    } else {
        1
    }
}

/// The first row shown of a `total`-row list in a panel `height` rows tall,
/// with the cursor at `cursor` and the window currently starting at `current`.
pub open spec fn scrolled(total: int, height: int, cursor: int, current: int) -> int {
    if total == 0 || height == 0 {
        0
    } else {
        let usable = usable_rows(height);
        let max_offset = if total - usable >= 0 {
            total - usable
        } else {
            0
        };
        let offset = if cursor < current {
            cursor
        } else if cursor >= current + usable {
            cursor + 1 - usable
        } else {
            current
        };
        if offset <= max_offset {
            offset
        } else {
            max_offset
        }
    }
}

/// Rows the loops panel can show, given its height and whether the cursor's
/// hint is expanded: the window moves only as far as it must to keep the
/// cursor in view, and never past the point where the last row is at the
/// bottom.
pub fn scroll_offset(total: usize, height: usize, cursor: usize, current: usize) -> (offset: usize)
    ensures
        offset == scrolled(total as int, height as int, cursor as int, current as int),
        cursor < total && height > 0 ==> offset <= cursor < offset + usable_rows(height as int),
        total > 0 && height > 0 ==> offset <= total - 1,
        offset == 0 || offset + usable_rows(height as int) <= total,
        height > 0 && current <= cursor && cursor < current + usable_rows(height as int) && current + usable_rows(
            height as int,
        ) <= total ==> offset == current,
{
    if total == 0 || height == 0 {
        return 0;
    }
    // The selected row costs two lines once its hint is expanded, so the window
    // is one shorter than the panel is tall.
    let usable = if height - 1 >= 1 { height - 1 } else { 1 };
    let max_offset = if total >= usable { total - usable } else { 0 };
    let offset = if cursor < current {
        cursor
    } else if cursor - current >= usable {
        cursor - usable + 1
    } else {
        current
    };
    if offset <= max_offset {
        offset
    } else {
        max_offset
    }
}

/// The window only moves when it must. A cursor already inside a window that
/// does not run past the end of the list leaves the window where it is; a
/// cursor above the window pulls its top up to the cursor (unless that would
/// leave the list short); a cursor below it
/// pulls its bottom down to the cursor. The window is one row shorter than
/// the panel (the selected row's hint takes one), but never less than a row.
pub proof fn scrolling_moves_the_window_only_as_far_as_it_must(total: int, height: int, cursor: int, current: int)
    requires
        height > 0,
        0 <= current,
        0 <= cursor < total,
    ensures
        usable_rows(height) == if height >= 2 { height - 1 } else { 1 },
        current <= cursor < current + usable_rows(height) && current + usable_rows(height) <= total ==> scrolled(
            total,
            height,
            cursor,
            current,
        ) == current,
        cursor < current && cursor + usable_rows(height) <= total ==> scrolled(total, height, cursor, current) == cursor,
        cursor >= current + usable_rows(height) ==> scrolled(total, height, cursor, current) == cursor + 1
            - usable_rows(height),
{
}

/// When the cursor sits on the last row, the window reaches the end of the
/// list: the last item is always reachable.
pub proof fn last_item_is_reachable(total: int, height: int, current: int)
    requires
        total > 0,
        height > 0,
    ensures
        scrolled(total, height, total - 1, current) + usable_rows(height) >= total,
{
}

/// A list that fits in the window never scrolls.
pub proof fn fitting_list_never_scrolls(total: int, height: int, cursor: int, current: int)
    requires
        0 <= total <= usable_rows(height),
        height > 0,
        current >= 0,
        0 <= cursor,
    ensures
        scrolled(total, height, cursor, current) == 0,
{
}

/// Height of the open-loops list for a terminal `terminal_height` rows tall:
/// one header row, one footer row, and the panel's own two borders.
pub fn loops_height(terminal_height: u16) -> (h: usize)
    ensures
        h == if terminal_height >= 4 { terminal_height - 4 } else { 0 },
{
    if terminal_height >= 4 {
        (terminal_height - 4) as usize
    } else {
        0
    }
}

} // verus!
