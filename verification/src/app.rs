//! The daybook pane's state: the document on screen, the cursor over its open
//! loops, and the two refresh cadences.
//!
//! Agents and dirty files change minute to minute, while pull-request state
//! costs a dozen network round trips to learn. So the pane re-reads git,
//! transcripts and the agent roster every 30s offline, refreshes pull requests
//! every 5 minutes, and carries the last known pull-request state forward in
//! between. The event loop that runs collections and reads keys lives with the
//! terminal; every decision it makes is taken here. Times are milliseconds on
//! one monotonic clock, supplied by the caller.

use vstd::prelude::*;

use crate::copies::replicate_all;
use crate::model::{Collector, Doc, DocView, Item, Prs, PrsView, Totals, within_band};
use crate::ordering::{sorted_copy, stable_sort, Ranked};
use crate::text::{same_text, starts_with_text};
use crate::ui::{scroll_offset, scrolled};

verus! {

/// Cheap pass: git, transcripts, the agent roster.
pub const LIVE_REFRESH_MS: u64 = 30000;

/// Expensive pass: everything, including the GitHub round trips.
pub const FULL_REFRESH_MS: u64 = 300000;

/// A first paint from a cache this fresh (seconds) beats a five-second blank pane.
pub const FIRST_PAINT_MAX_AGE: u64 = 900;

/// The severity band that hides housekeeping when it is the widest shown.
pub const ALL_BANDS: u8 = 4;

/// Attention kinds that only a networked collection can produce.
pub open spec fn pr_kind(kind: Seq<char>) -> bool {
    (kind.len() >= 3 && kind.take(3) == "pr-"@) || kind == "review-requested"@
}

/// An item only a networked pass can report.
pub open spec fn is_pr(i: Item) -> bool {
    pr_kind(i.kind@)
}

/// Attention kinds that only a networked collection can produce. Carried
/// forward across offline refreshes so pull requests do not blink out of the
/// list every 30 seconds.
pub fn is_pr_item(item: &Item) -> (r: bool)
    ensures
        r == is_pr(*item),
{
    let prefixed = starts_with_text(item.kind.as_str(), "pr-");
    proof {
        reveal_strlit("pr-");
    }
    prefixed || same_text(item.kind.as_str(), "review-requested")
}

/// Everything a networked pass knows that an offline one does not.
#[derive(Debug)]
pub struct NetPrs {
    prs: Prs,
    open: usize,
    merged: usize,
    reviews_requested: usize,
    items: Vec<Item>,
}

/// A networked pass's knowledge, as values.
pub struct NetPrsView {
    pub prs: PrsView,
    pub open: usize,
    pub merged: usize,
    pub reviews_requested: usize,
    pub items: Seq<Item>,
}

impl View for NetPrs {
    type V = NetPrsView;

    closed spec fn view(&self) -> NetPrsView {
        NetPrsView {
            prs: self.prs@,
            open: self.open,
            merged: self.merged,
            reviews_requested: self.reviews_requested,
            items: self.items@,
        }
    }
}

/// What a networked document knows about pull requests.
pub open spec fn snapshot_of(d: DocView) -> NetPrsView {
    NetPrsView {
        prs: d.prs,
        open: d.totals.prs_open,
        merged: d.totals.prs_merged,
        reviews_requested: d.totals.reviews_requested,
        items: d.attention.filter(|i: Item| is_pr(i)),
    }
}

/// An offline document with the last networked pull-request state carried
/// forward: the pull requests and their counts replaced, and the carried items
/// merged into the open loops in severity, kind, text order.
pub open spec fn carried(d: DocView, snap: NetPrsView) -> DocView {
    DocView {
        prs: snap.prs,
        totals: Totals {
            prs_open: snap.open,
            prs_merged: snap.merged,
            reviews_requested: snap.reviews_requested,
            ..d.totals
        },
        attention: stable_sort(d.attention + snap.items),
        ..d
    }
}

impl NetPrs {
    /// Take a networked document's pull-request state.
    pub fn from(doc: &Doc) -> (r: NetPrs)
        ensures
            r@ == snapshot_of(doc@),
    {
        let ghost pred = |i: Item| is_pr(i);
        let mut items: Vec<Item> = Vec::new();
        let mut k: usize = 0;
        while k < doc.attention.len()
            invariant
                pred == (|i: Item| is_pr(i)),
                k <= doc.attention.len(),
                items@ == doc.attention@.take(k as int).filter(pred),
            decreases doc.attention.len() - k,
        {
            let item = &doc.attention[k];
            proof {
                let t = doc.attention@.take(k + 1);
                assert(t.drop_last() =~= doc.attention@.take(k as int));
                assert(t.last() == *item);
                assert(pred(*item) == is_pr(*item));
                reveal_with_fuel(Seq::<_>::filter, 1);
                assert(t.filter(pred) == if pred(*item) {
                    doc.attention@.take(k as int).filter(pred).push(*item)
                } else {
                    doc.attention@.take(k as int).filter(pred)
                });
            }
            if is_pr_item(item) {
                items.push(item.clone());
            }
            k = k + 1;
        }
        assert(doc.attention@.take(doc.attention.len() as int) =~= doc.attention@);
        NetPrs {
            prs: doc.prs.clone(),
            open: doc.totals.prs_open,
            merged: doc.totals.prs_merged,
            reviews_requested: doc.totals.reviews_requested,
            items,
        }
    }
}

/// Carry `snap` into an offline document.
fn carry_forward(doc: Doc, snap: &NetPrs) -> (out: Doc)
    ensures
        out@ == carried(doc@, snap@),
{
    let mut doc = doc;
    let mut all = replicate_all(&doc.attention);
    let mut extra = replicate_all(&snap.items);
    all.append(&mut extra);
    let sorted = sorted_copy(&all);
    doc.prs = snap.prs.clone();
    doc.totals.prs_open = snap.open;
    doc.totals.prs_merged = snap.merged;
    doc.totals.reviews_requested = snap.reviews_requested;
    doc.attention = sorted;
    doc
}

/// Keys the pane acts on.
#[derive(Debug, Clone, Copy, PartialEq, Eq, Structural)]
pub enum Key {
    /// `q` or `Esc`.
    Quit,
    /// `r`: a fresh collection now.
    Refresh,
    /// `j` or down.
    Down,
    /// `k` or up.
    Up,
    /// `d` or page down.
    HalfPageDown,
    /// `u` or page up.
    HalfPageUp,
    /// `g` or home.
    Top,
    /// `G` or end.
    Bottom,
    /// `a`: show or hide the housekeeping band.
    ToggleHousekeeping,
    /// `n`: toggle offline.
    ToggleNet,
    /// Anything else.
    Other,
}

/// What the event loop should do after a key.
#[derive(Debug, Clone, Copy, PartialEq, Eq, Structural)]
pub enum Step {
    /// Close the pane.
    Quit,
    /// Run a collection with this cache age (seconds) and network setting.
    Collect { max_age: u64, net: bool },
    /// Nothing beyond redrawing.
    Stay,
}

/// How far a key moves the cursor in a list window `height` rows tall.
pub open spec fn key_delta(key: Key, height: int) -> int {
    match key {
        Key::Down => 1,
        Key::Up => -1,
        Key::HalfPageDown => height / 2,
        Key::HalfPageUp => -(height / 2),
        Key::Top => (isize::MIN as int) / 2,
        Key::Bottom => (isize::MAX as int) / 2,
        _ => 0,
    }
}

/// `v` pulled into `[lo, hi]`.
pub open spec fn clamp_int(v: int, lo: int, hi: int) -> int {
    if v < lo {
        lo
    } else if v > hi {
        hi
    } else {
        v
    }
}

/// What the pane keeps to itself: the document, the snapshot it carries
/// forward, the clocks, and the list height of the last frame.
pub struct PaneState {
    doc: Option<Doc>,
    /// Rows the open-loops panel had in the last frame, so `clamp` can
    /// re-derive the scroll offset without a terminal to measure.
    list_height: usize,
    collector: Collector,
    last: u64,
    last_full: Option<u64>,
    /// The last networked answer about pull requests, held separately so that
    /// a run of offline refreshes keeps carrying the same snapshot forward and
    /// carrying twice cannot duplicate the items.
    net_prs: Option<NetPrs>,
}

/// The pane's state.
pub struct App {
    pub error: Option<String>,
    pub cursor: usize,
    pub offset: usize,
    /// Highest severity number shown. 3 hides the housekeeping band; `a` toggles.
    pub max_severity: u8,
    pub net: bool,
    pub collecting: bool,
    /// True while the displayed pull-request data came from an earlier pass.
    pub prs_carried: bool,
    pub state: PaneState,
}

impl App {
    /// The document on screen, as values.
    pub closed spec fn doc_view(&self) -> Option<DocView> {
        match self.state.doc {
            Some(d) => Some(d@),
            None => None,
        }
    }

    /// The pull-request state an offline pass would carry forward.
    pub closed spec fn snapshot(&self) -> Option<NetPrsView> {
        match self.state.net_prs {
            Some(n) => Some(n@),
            None => None,
        }
    }

    /// When the pane last took a document or tried to.
    pub closed spec fn last_update(&self) -> u64 {
        self.state.last
    }

    /// When a networked pass last landed, or was last attempted.
    pub closed spec fn last_full_update(&self) -> Option<u64> {
        self.state.last_full
    }

    /// Rows of the open-loops list in the last frame.
    pub closed spec fn list_rows(&self) -> usize {
        self.state.list_height
    }

    /// The collector the pane runs.
    pub closed spec fn collector_view(&self) -> Collector {
        self.state.collector
    }

    /// Number of open loops shown under the current band filter.
    pub open spec fn shown(&self) -> int {
        match self.doc_view() {
            Some(d) => d.attention.filter(|i: Item| within_band(i, self.max_severity)).len() as int,
            None => 0,
        }
    }

    /// The cursor is on a shown row and the window starts no later than it;
    /// both are zero when nothing is shown.
    pub open spec fn wf(&self) -> bool {
        if self.shown() == 0 {
            self.cursor == 0 && self.offset == 0
        } else {
            self.cursor < self.shown() && self.offset <= self.cursor
        }
    }

    /// A fresh pane: nothing collected yet, every band shown, online.
    pub fn new(collector: Collector, now: u64) -> (app: App)
        ensures
            app.doc_view() is None,
            app.error is None,
            app.cursor == 0,
            app.offset == 0,
            app.max_severity == ALL_BANDS,
            app.net,
            !app.collecting,
            !app.prs_carried,
            app.list_rows() == 20,
            app.collector_view() == collector,
            app.last_update() == now,
            app.last_full_update() is None,
            app.snapshot() is None,
            app.wf(),
    {
        App {
            error: None,
            cursor: 0,
            offset: 0,
            max_severity: 4,
            net: true,
            collecting: false,
            prs_carried: false,
            state: PaneState {
                doc: None,
                // Replaced by the real height on the first frame; non-zero so
                // a clamp before the first draw still behaves.
                list_height: 20,
                collector,
                last: now,
                last_full: None,
                net_prs: None,
            },
        }
    }

    /// The document on screen, if any.
    pub fn doc(&self) -> (r: Option<&Doc>)
        ensures
            match r {
                Some(d) => self.doc_view() == Some(d@),
                None => self.doc_view() is None,
            },
    {
        self.state.doc.as_ref()
    }

    /// The collector the pane runs.
    pub fn collector(&self) -> (r: &Collector)
        ensures
            *r == self.collector_view(),
    {
        &self.state.collector
    }

    /// Milliseconds since the pane last took a document or tried to.
    pub fn age(&self, now: u64) -> (ms: u64)
        ensures
            ms == if now >= self.last_update() { now - self.last_update() } else { 0 },
    {
        now.saturating_sub(self.state.last)
    }

    /// When a networked pass last landed or was last attempted.
    pub fn last_full(&self) -> (r: Option<u64>)
        ensures
            r == self.last_full_update(),
    {
        self.state.last_full
    }

    /// Show the bands down to `max_severity`, leaving everything else as it
    /// is; `clamp` then pulls the cursor back into the narrowed list.
    pub fn set_max_severity(&mut self, max_severity: u8)
        ensures
            final(self).max_severity == max_severity,
            final(self).doc_view() == old(self).doc_view(),
            final(self).snapshot() == old(self).snapshot(),
            final(self).cursor == old(self).cursor,
            final(self).offset == old(self).offset,
            final(self).collecting == old(self).collecting,
            final(self).net == old(self).net,
            final(self).error == old(self).error,
            final(self).prs_carried == old(self).prs_carried,
            final(self).list_rows() == old(self).list_rows(),
            final(self).last_update() == old(self).last_update(),
            final(self).last_full_update() == old(self).last_full_update(),
            final(self).collector_view() == old(self).collector_view(),
    {
        self.max_severity = max_severity;
    }

    /// Record how many rows the open-loops list has in the frame just drawn.
    pub fn set_list_height(&mut self, height: usize)
        ensures
            final(self).list_rows() == height,
            final(self).doc_view() == old(self).doc_view(),
            final(self).snapshot() == old(self).snapshot(),
            final(self).cursor == old(self).cursor,
            final(self).offset == old(self).offset,
            final(self).max_severity == old(self).max_severity,
            final(self).collecting == old(self).collecting,
            final(self).net == old(self).net,
            final(self).error == old(self).error,
            final(self).prs_carried == old(self).prs_carried,
            final(self).last_update() == old(self).last_update(),
            final(self).last_full_update() == old(self).last_full_update(),
            final(self).collector_view() == old(self).collector_view(),
            final(self).wf() == old(self).wf(),
    {
        self.state.list_height = height;
    }

    /// Begin a collection unless one is already running. The caller runs it
    /// when this returns true and reports back through `finish`.
    pub fn start(&mut self) -> (begin: bool)
        ensures
            begin == !old(self).collecting,
            final(self).collecting,
            final(self).doc_view() == old(self).doc_view(),
            final(self).snapshot() == old(self).snapshot(),
            final(self).list_rows() == old(self).list_rows(),
            final(self).error == old(self).error,
            final(self).prs_carried == old(self).prs_carried,
            final(self).collector_view() == old(self).collector_view(),
            final(self).cursor == old(self).cursor,
            final(self).offset == old(self).offset,
            final(self).max_severity == old(self).max_severity,
            final(self).net == old(self).net,
            final(self).last_update() == old(self).last_update(),
            final(self).last_full_update() == old(self).last_full_update(),
            final(self).wf() == old(self).wf(),
    {
        if self.collecting {
            return false;
        }
        self.collecting = true;
        true
    }

    /// Note that a collection was attempted, successfully or not, so neither
    /// cadence fires again immediately.
    pub fn mark_attempted(&mut self, now: u64)
        ensures
            final(self).last_update() == now,
            final(self).last_full_update() == Some(now),
            final(self).error == old(self).error,
            final(self).doc_view() == old(self).doc_view(),
            final(self).snapshot() == old(self).snapshot(),
            final(self).list_rows() == old(self).list_rows(),
            final(self).prs_carried == old(self).prs_carried,
            final(self).collector_view() == old(self).collector_view(),
            final(self).cursor == old(self).cursor,
            final(self).offset == old(self).offset,
            final(self).max_severity == old(self).max_severity,
            final(self).collecting == old(self).collecting,
            final(self).net == old(self).net,
            final(self).wf() == old(self).wf(),
    {
        self.state.last = now;
        self.state.last_full = Some(now);
    }

    /// How many open loops are shown under the current band filter.
    pub fn visible(&self) -> (n: usize)
        ensures
            n == self.shown(),
    {
        match &self.state.doc {
            Some(d) => d.loops_count(self.max_severity),
            None => 0,
        }
    }

    /// Pull the cursor and the scroll offset back inside the list.
    ///
    /// Both, not just the cursor: a refresh that shortens the list leaves an
    /// offset past its end, and the panel then renders nothing while its border
    /// still reports a count.
    pub fn clamp(&mut self)
        ensures
            final(self).collector_view() == old(self).collector_view(),
            final(self).wf(),
            final(self).doc_view() == old(self).doc_view(),
            final(self).max_severity == old(self).max_severity,
            final(self).list_rows() == old(self).list_rows(),
            final(self).snapshot() == old(self).snapshot(),
            final(self).last_update() == old(self).last_update(),
            final(self).last_full_update() == old(self).last_full_update(),
            final(self).collecting == old(self).collecting,
            final(self).net == old(self).net,
            final(self).prs_carried == old(self).prs_carried,
            final(self).error == old(self).error,
            old(self).shown() == 0 ==> final(self).cursor == 0 && final(self).offset == 0,
            old(self).shown() > 0 ==> {
                &&& final(self).cursor == if old(self).cursor < old(self).shown() {
                    old(self).cursor as int
                } else {
                    old(self).shown() - 1
                }
                &&& final(self).offset == scrolled(
                    old(self).shown(),
                    old(self).list_rows() as int,
                    final(self).cursor as int,
                    old(self).offset as int,
                )
            },
    {
        let n = self.visible();
        if n == 0 {
            self.cursor = 0;
            self.offset = 0;
            return;
        }
        if self.cursor > n - 1 {
            self.cursor = n - 1;
        }
        self.offset = scroll_offset(n, self.state.list_height, self.cursor, self.offset);
    }

    /// Move the cursor by `delta` rows, clamped to the list, scrolling a window
    /// `height` rows tall to keep it in view. An empty list swallows the move.
    pub fn move_cursor(&mut self, delta: isize, height: usize)
        ensures
            final(self).collector_view() == old(self).collector_view(),
            old(self).shown() == 0 ==> final(self).cursor == old(self).cursor && final(self).offset
                == old(self).offset && final(self).list_rows() == old(self).list_rows(),
            old(self).shown() > 0 ==> {
                &&& final(self).list_rows() == height
                &&& final(self).cursor == clamp_int(
                    old(self).cursor + delta,
                    0,
                    old(self).shown() - 1,
                )
                &&& final(self).offset == scrolled(
                    old(self).shown(),
                    height as int,
                    final(self).cursor as int,
                    old(self).offset as int,
                )
            },
            final(self).doc_view() == old(self).doc_view(),
            final(self).max_severity == old(self).max_severity,
            final(self).snapshot() == old(self).snapshot(),
            final(self).last_update() == old(self).last_update(),
            final(self).last_full_update() == old(self).last_full_update(),
            final(self).collecting == old(self).collecting,
            final(self).net == old(self).net,
            final(self).error == old(self).error,
            final(self).prs_carried == old(self).prs_carried,
            old(self).shown() > 0 && height > 0 ==> final(self).wf(),
            old(self).wf() ==> final(self).wf(),
    {
        let n = self.visible();
        if n == 0 {
            return;
        }
        self.state.list_height = height;
        let target: i128 = self.cursor as i128 + delta as i128;
        let next: usize = if target < 0 {
            0
        } else if target > (n - 1) as i128 {
            n - 1
        } else {
            target as usize
        };
        self.cursor = next;
        self.offset = scroll_offset(n, height, self.cursor, self.offset);
        proof {
            if height == 0 {
                assert(self.offset == 0);
            }
        }
    }

    /// Take a finished document.
    ///
    /// A networked one replaces everything and becomes the snapshot later
    /// offline passes carry forward; a cached networked one does not reset the
    /// full-refresh clock, since the first paint accepts a cache up to fifteen
    /// minutes old. An offline one gets the snapshot's pull requests carried
    /// into it, flagged as older than the rest.
    pub fn apply(&mut self, doc: Doc, now: u64)
        ensures
            doc.net ==> {
                &&& final(self).doc_view() == Some(doc@)
                &&& final(self).snapshot() == Some(snapshot_of(doc@))
                &&& !final(self).prs_carried
                &&& final(self).last_full_update() == if doc.from_cache {
                    old(self).last_full_update()
                } else {
                    Some(now)
                }
            },
            !doc.net ==> {
                &&& final(self).snapshot() == old(self).snapshot()
                &&& final(self).last_full_update() == old(self).last_full_update()
                &&& match old(self).snapshot() {
                    Some(snap) => final(self).doc_view() == Some(carried(doc@, snap))
                        && final(self).prs_carried,
                    None => final(self).doc_view() == Some(doc@) && !final(self).prs_carried,
                }
            },
            final(self).error is None,
            final(self).last_update() == now,
            final(self).wf(),
            final(self).max_severity == old(self).max_severity,
            final(self).list_rows() == old(self).list_rows(),
            final(self).collecting == old(self).collecting,
            final(self).net == old(self).net,
            final(self).shown() > 0 ==> final(self).cursor == if old(self).cursor
                < final(self).shown() {
                old(self).cursor as int
            } else {
                final(self).shown() - 1
            },
            final(self).shown() > 0 ==> final(self).offset == scrolled(
                final(self).shown(),
                old(self).list_rows() as int,
                final(self).cursor as int,
                old(self).offset as int,
            ),
            final(self).collector_view() == old(self).collector_view(),
    {
        self.prs_carried = false;
        if doc.net {
            self.state.net_prs = Some(NetPrs::from(&doc));
            if !doc.from_cache {
                self.state.last_full = Some(now);
            }
            self.state.doc = Some(doc);
        } else {
            match &self.state.net_prs {
                Some(snap) => {
                    // An offline pass knows nothing about pull requests.
                    // Blanking them would be a lie of omission, so the last
                    // networked answer is carried forward.
                    let shown = carry_forward(doc, snap);
                    self.state.doc = Some(shown);
                    self.prs_carried = true;
                },
                None => {
                    self.state.doc = Some(doc);
                },
            }
        }
        self.error = None;
        self.state.last = now;
        self.clamp();
    }

    /// A collection finished with a document: apply it.
    pub fn collected(&mut self, doc: Doc, now: u64)
        ensures
            !final(self).collecting,
            final(self).error is None,
            final(self).wf(),
            final(self).last_update() == now,
            final(self).doc_view() == if doc.net {
                Some(doc@)
            } else {
                match old(self).snapshot() {
                    Some(snap) => Some(carried(doc@, snap)),
                    None => Some(doc@),
                }
            },
            final(self).snapshot() == if doc.net {
                Some(snapshot_of(doc@))
            } else {
                old(self).snapshot()
            },
            final(self).last_full_update() == if doc.net && !doc.from_cache {
                Some(now)
            } else {
                old(self).last_full_update()
            },
            final(self).prs_carried == (!doc.net && old(self).snapshot() is Some),
            final(self).max_severity == old(self).max_severity,
            final(self).net == old(self).net,
            final(self).list_rows() == old(self).list_rows(),
            final(self).collector_view() == old(self).collector_view(),
            final(self).shown() > 0 ==> final(self).cursor == if old(self).cursor < final(self).shown() {
                old(self).cursor as int
            } else {
                final(self).shown() - 1
            },
            final(self).shown() > 0 ==> final(self).offset == scrolled(
                final(self).shown(),
                old(self).list_rows() as int,
                final(self).cursor as int,
                old(self).offset as int,
            ),
    {
        self.apply(doc, now);
        self.collecting = false;
    }

    /// A collection failed: show why, and move both clocks so a fast-failing
    /// collector is not respawned on every tick (a full refresh is otherwise
    /// due forever, since `last_full` stays unset until one succeeds).
    pub fn failed(&mut self, message: String, now: u64)
        ensures
            !final(self).collecting,
            final(self).error == Some(message),
            final(self).last_update() == now,
            final(self).last_full_update() == Some(now),
            final(self).doc_view() == old(self).doc_view(),
            final(self).snapshot() == old(self).snapshot(),
            final(self).cursor == old(self).cursor,
            final(self).offset == old(self).offset,
            final(self).max_severity == old(self).max_severity,
            final(self).net == old(self).net,
            final(self).prs_carried == old(self).prs_carried,
            final(self).list_rows() == old(self).list_rows(),
            final(self).collector_view() == old(self).collector_view(),
            final(self).wf() == old(self).wf(),
    {
        self.error = Some(message);
        self.collecting = false;
        self.mark_attempted(now);
    }

    /// The collection ended without an answer (its worker died). Say so rather
    /// than wait forever.
    pub fn lost_collection(&mut self)
        ensures
            !final(self).collecting,
            final(self).error matches Some(e) && e@ == "the collector thread died"@,
            final(self).doc_view() == old(self).doc_view(),
            final(self).last_update() == old(self).last_update(),
            final(self).last_full_update() == old(self).last_full_update(),
            final(self).snapshot() == old(self).snapshot(),
            final(self).cursor == old(self).cursor,
            final(self).offset == old(self).offset,
            final(self).max_severity == old(self).max_severity,
            final(self).net == old(self).net,
            final(self).prs_carried == old(self).prs_carried,
            final(self).list_rows() == old(self).list_rows(),
            final(self).collector_view() == old(self).collector_view(),
            final(self).wf() == old(self).wf(),
    {
        self.error = Some(String::from_str("the collector thread died"));
        self.collecting = false;
    }

    /// Which collection the cadences call for at `now`, if any: a networked
    /// pass when online and five minutes have passed since the last one (or
    /// none has), else an offline pass after thirty seconds of quiet.
    pub fn due(&self, now: u64) -> (r: Option<bool>)
        ensures
            self.collecting ==> r is None,
            !self.collecting ==> {
                let full_due = match self.last_full_update() {
                    Some(t) => now >= t && now - t >= FULL_REFRESH_MS,
                    None => true,
                };
                let live_due = now >= self.last_update() && now - self.last_update()
                    >= LIVE_REFRESH_MS;
                r == if self.net && full_due {
                    Some(true)
                } else if live_due {
                    Some(false)
                } else {
                    None::<bool>
                }
            },
    {
        if self.collecting {
            return None;
        }
        let full_due = match self.state.last_full {
            Some(t) => now.saturating_sub(t) >= FULL_REFRESH_MS,
            None => true,
        };
        if self.net && full_due {
            Some(true)
        } else if now.saturating_sub(self.state.last) >= LIVE_REFRESH_MS {
            Some(false)
        } else {
            None
        }
    }

    /// Act on a key, given the open-loops list is `height` rows tall.
    pub fn handle_key(&mut self, key: Key, height: usize) -> (step: Step)
        requires
            height <= isize::MAX,
        ensures
            key == Key::Quit ==> step == Step::Quit,
            key == Key::Refresh ==> final(self).net == old(self).net && step == (if old(self).collecting {
                Step::Stay
            } else {
                Step::Collect { max_age: 0, net: old(self).net }
            }),
            key == Key::ToggleNet ==> final(self).net == !old(self).net && step == (if old(self).collecting {
                Step::Stay
            } else {
                Step::Collect { max_age: 0, net: !old(self).net }
            }),
            key == Key::ToggleHousekeeping ==> {
                &&& final(self).max_severity == if old(self).max_severity >= 4 { 3u8 } else { 4u8 }
                &&& final(self).wf()
                &&& step == Step::Stay
            },
            key_delta(key, height as int) != 0 || key == Key::Down || key == Key::Up ==> {
                &&& step == Step::Stay
                &&& final(self).max_severity == old(self).max_severity
                &&& old(self).shown() > 0 ==> final(self).cursor == clamp_int(
                    old(self).cursor + key_delta(key, height as int),
                    0,
                    old(self).shown() - 1,
                )
                &&& old(self).shown() > 0 ==> final(self).offset == scrolled(
                    old(self).shown(),
                    height as int,
                    final(self).cursor as int,
                    old(self).offset as int,
                )
            },
            key == Key::Other ==> step == Step::Stay,
            old(self).shown() > 0 && old(self).wf() ==> {
                let n = old(self).shown();
                let c = old(self).cursor as int;
                let half = height / 2;
                &&& key == Key::Down ==> final(self).cursor == if c + 1 < n { c + 1 } else { n - 1 }
                &&& key == Key::Up ==> final(self).cursor == if c >= 1 { c - 1 } else { 0 }
                &&& key == Key::HalfPageDown ==> final(self).cursor == if c + half < n { c + half } else { n - 1 }
                &&& key == Key::HalfPageUp ==> final(self).cursor == if c >= half { c - half } else { 0 }
                &&& key == Key::Top && 2 * n <= isize::MAX ==> final(self).cursor == 0
                &&& key == Key::Bottom && 2 * n <= isize::MAX ==> final(self).cursor == n - 1
            },
            step is Collect ==> final(self).collecting,
            key == Key::Refresh || key == Key::ToggleNet ==> {
                &&& final(self).collecting
                &&& final(self).cursor == old(self).cursor
                &&& final(self).offset == old(self).offset
                &&& final(self).max_severity == old(self).max_severity
            },
            key != Key::Refresh && key != Key::ToggleNet ==> final(self).collecting == old(self).collecting
                && final(self).net == old(self).net,
            final(self).snapshot() == old(self).snapshot(),
            final(self).last_update() == old(self).last_update(),
            final(self).last_full_update() == old(self).last_full_update(),
            final(self).collector_view() == old(self).collector_view(),
            final(self).error == old(self).error,
            final(self).prs_carried == old(self).prs_carried,
            key == Key::Quit || key == Key::Other ==> *final(self) == *old(self),
            final(self).doc_view() == old(self).doc_view(),
            old(self).wf() ==> final(self).wf(),
    {
        proof {
            if self.shown() > 0 && self.cursor < self.shown() {
                movement_keys_move_as_labelled(self.shown(), self.cursor as int, height as int);
            }
        }
        let h = height as isize;
        match key {
            Key::Quit => Step::Quit,
            Key::Refresh => {
                if self.start() {
                    Step::Collect { max_age: 0, net: self.net }
                } else {
                    Step::Stay
                }
            },
            Key::Down => {
                self.move_cursor(1, height);
                Step::Stay
            },
            Key::Up => {
                self.move_cursor(-1, height);
                Step::Stay
            },
            Key::HalfPageDown => {
                self.move_cursor(h / 2, height);
                Step::Stay
            },
            Key::HalfPageUp => {
                self.move_cursor(-h / 2, height);
                Step::Stay
            },
            Key::Top => {
                self.move_cursor(isize::MIN / 2, height);
                Step::Stay
            },
            Key::Bottom => {
                self.move_cursor(isize::MAX / 2, height);
                Step::Stay
            },
            Key::ToggleHousekeeping => {
                // Housekeeping is worth hiding when the list is long.
                self.max_severity = if self.max_severity >= 4 { 3 } else { 4 };
                self.clamp();
                Step::Stay
            },
            Key::ToggleNet => {
                self.net = !self.net;
                if self.start() {
                    Step::Collect { max_age: 0, net: self.net }
                } else {
                    Step::Stay
                }
            },
            Key::Other => Step::Stay,
        }
    }
}

/// An offline pass shows its own items plus exactly the items the last
/// networked pass reported about pull requests: however many offline passes
/// run in a row, the carried items never stack up.
pub proof fn carrying_never_stacks(d: DocView, snap: NetPrsView)
    ensures
        carried(d, snap).attention.len() == d.attention.len() + snap.items.len(),
        carried(carried(d, snap), snap).prs == carried(d, snap).prs,
{
    crate::ordering::lemma_stable_sort_len(d.attention + snap.items);
}


/// An offline pass's open loops are exactly its own items and the carried
/// ones, each as often as it occurs in either, in severity, kind, text order;
/// its pull requests and their counts are the snapshot's.
pub proof fn carried_loops_merge(d: DocView, snap: NetPrsView)
    ensures
        carried(d, snap).attention.to_multiset() == (d.attention + snap.items).to_multiset(),
        forall|i: int, j: int|
            0 <= i < j < carried(d, snap).attention.len() ==> (#[trigger] carried(d, snap).attention[i]).rank_le(
                #[trigger] carried(d, snap).attention[j],
            ),
        carried(d, snap).prs == snap.prs,
        carried(d, snap).totals.prs_open == snap.open,
        carried(d, snap).totals.prs_merged == snap.merged,
        carried(d, snap).totals.reviews_requested == snap.reviews_requested,
{
    crate::ordering::stable_sort_is_a_permutation(d.attention + snap.items);
    crate::ordering::stable_sort_is_sorted(d.attention + snap.items);
}


/// Movement keys, over a list of `n` shown rows with the cursor on row `c`
/// (`c < n`) and a panel `height` rows tall: `j`/`k` move one row, `d`/`u`
/// move half the panel down/up, `G`/`g` reach the last/first row of any list
/// shorter than half the index range, each stopping at the ends; half a page up undoes half a page down when neither
/// hits an end.
pub proof fn movement_keys_move_as_labelled(n: int, c: int, height: int)
    requires
        0 <= c < n,
        0 <= height <= isize::MAX,
    ensures
        clamp_int(c + key_delta(Key::Down, height), 0, n - 1) == if c + 1 < n { c + 1 } else { n - 1 },
        clamp_int(c + key_delta(Key::Up, height), 0, n - 1) == if c >= 1 { c - 1 } else { 0 },
        clamp_int(c + key_delta(Key::HalfPageDown, height), 0, n - 1) == if c + height / 2 < n {
            c + height / 2
        } else {
            n - 1
        },
        clamp_int(c + key_delta(Key::HalfPageUp, height), 0, n - 1) == if c >= height / 2 {
            c - height / 2
        } else {
            0
        },
        2 * n <= isize::MAX ==> clamp_int(c + key_delta(Key::Top, height), 0, n - 1) == 0,
        2 * n <= isize::MAX ==> clamp_int(c + key_delta(Key::Bottom, height), 0, n - 1) == n - 1,
        c + height / 2 < n ==> clamp_int(
            clamp_int(c + key_delta(Key::HalfPageDown, height), 0, n - 1) + key_delta(Key::HalfPageUp, height),
            0,
            n - 1,
        ) == c,
{
}

} // verus!
