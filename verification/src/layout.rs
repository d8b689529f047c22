//! The agent map's structure: agents grouped by repository, each group's most
//! urgent status and box width, each agent's title, and the geometry of boxes
//! and the dotted connectors between them.
//!
//! Where the nodes go (a ring around the viewport, agents orbiting their
//! group, recency as a rank) is floating-point trigonometry and is computed by
//! the caller; everything decided in whole cells is decided here.

use vstd::prelude::*;

use crate::copies::{replicate_all, Replicate};
use crate::ordering::{
    is_stable_order, lemma_stable_order_exists, lemma_stable_sort_map, positions, precedes,
    reordered, stable_order, stable_sort, stable_sort_is_sorted, stable_sort_rearranges,
    RankCompare, Ranked,
};
use crate::status::{status_named, urgency, Agent, Status, Workspace, Worktree};
use crate::text::{clean_title, cleaned_title, same_text};

verus! {

impl Replicate for Agent {
    fn replicate(&self) -> (r: Self) {
        self.clone()
    }
}

impl Replicate for Workspace {
    fn replicate(&self) -> (r: Self) {
        self.clone()
    }
}

impl Replicate for Worktree {
    fn replicate(&self) -> (r: Self) {
        self.clone()
    }
}

// ---------------------------------------------------------------------------
// Boxes
// ---------------------------------------------------------------------------

/// A box on the character grid.
#[derive(Debug, Clone, Copy, PartialEq, Eq, Structural)]
pub struct Rect {
    pub x: u16,
    pub y: u16,
    pub w: u16,
    pub h: u16,
}

/// `a`, grown by `pad` cells on every side (clipped at zero on the top and
/// left), intersects `b`.
pub open spec fn rects_overlap(a: Rect, b: Rect, pad: u16) -> bool {
    let ax0: int = if a.x >= pad { a.x - pad } else { 0 };
    let ay0: int = if a.y >= pad { a.y - pad } else { 0 };
    let ax1: int = a.x + a.w + pad;
    let ay1: int = a.y + a.h + pad;
    &&& ax0 < b.x + b.w
    &&& b.x < ax1
    &&& ay0 < b.y + b.h
    &&& b.y < ay1
}

/// The far edges of `r`, grown by `pad`, stay on the grid.
pub open spec fn fits_grid(r: Rect, pad: u16) -> bool {
    r.x + r.w + pad <= u16::MAX && r.y + r.h + pad <= u16::MAX
}

impl Rect {
    /// Whether this box, with `pad` cells of clearance, touches `o`.
    pub fn overlaps(&self, o: &Rect, pad: u16) -> (r: bool)
        requires
            fits_grid(*self, pad),
            fits_grid(*o, 0),
        ensures
            r == rects_overlap(*self, *o, pad),
    {
        let ax0 = self.x.saturating_sub(pad);
        let ay0 = self.y.saturating_sub(pad);
        let ax1 = self.x + self.w + pad;
        let ay1 = self.y + self.h + pad;
        let bx1 = o.x + o.w;
        let by1 = o.y + o.h;
        ax0 < bx1 && o.x < ax1 && ay0 < by1 && o.y < ay1
    }

    /// The cell at the middle of the box (rounding up and left).
    pub fn center(&self) -> (c: (u16, u16))
        requires
            self.x + self.w / 2 <= u16::MAX,
            self.y + self.h / 2 <= u16::MAX,
        ensures
            c.0 == self.x + self.w / 2,
            c.1 == self.y + self.h / 2,
    {
        (self.x + self.w / 2, self.y + self.h / 2)
    }
}

/// A `w` by `h` box wanted at (`x`, `y`), pulled inside `area`: no further
/// left or up than the area's corner, and no further right or down than
/// leaves it inside the area (or at the corner when it is wider or taller
/// than the area).
pub open spec fn pulled_inside(x: u16, y: u16, w: u16, h: u16, area: Rect) -> Rect {
    let max_x = area.x + if area.w >= w { area.w - w } else { 0 };
    let max_y = area.y + if area.h >= h { area.h - h } else { 0 };
    let lx = if x >= area.x { x as int } else { area.x as int };
    let ly = if y >= area.y { y as int } else { area.y as int };
    Rect {
        x: (if lx <= max_x { lx } else { max_x }) as u16,
        y: (if ly <= max_y { ly } else { max_y }) as u16,
        w,
        h,
    }
}

/// Place a `w` by `h` box at (`x`, `y`), pulled inside `area`. A box no
/// bigger than the area lies wholly inside it.
pub fn place_inside(x: u16, y: u16, w: u16, h: u16, area: Rect) -> (r: Rect)
    requires
        fits_grid(area, 0),
    ensures
        r == pulled_inside(x, y, w, h, area),
        area.x <= r.x,
        area.y <= r.y,
        w <= area.w ==> r.x + r.w <= area.x + area.w,
        h <= area.h ==> r.y + r.h <= area.y + area.h,
{
    let max_x = area.x + area.w.saturating_sub(w);
    let max_y = area.y + area.h.saturating_sub(h);
    let lx = if x >= area.x { x } else { area.x };
    let ly = if y >= area.y { y } else { area.y };
    Rect { x: if lx <= max_x { lx } else { max_x }, y: if ly <= max_y { ly } else { max_y }, w, h }
}

/// Overlap is symmetric once neither box is padded.
pub proof fn overlap_is_symmetric(a: Rect, b: Rect)
    ensures
        rects_overlap(a, b, 0) == rects_overlap(b, a, 0),
{
}

/// A box with clearance touches everything the bare box touches.
pub proof fn padding_only_adds_overlaps(a: Rect, b: Rect, pad: u16)
    ensures
        rects_overlap(a, b, 0) ==> rects_overlap(a, b, pad),
{
}

// ---------------------------------------------------------------------------
// Grouping
// ---------------------------------------------------------------------------

/// One repository (or one standalone workspace) and the agents inside it.
#[derive(Debug)]
pub struct Group {
    pub label: String,
    pub agents: Vec<Agent>,
}

/// A group as values.
pub struct GroupView {
    pub label: Seq<char>,
    pub agents: Seq<Agent>,
}

impl View for Group {
    type V = GroupView;

    open spec fn view(&self) -> GroupView {
        GroupView { label: self.label@, agents: self.agents@ }
    }
}

/// Busiest groups first.
impl Ranked for Group {
    open spec fn rank_le(self, other: Self) -> bool {
        self.agents@.len() >= other.agents@.len()
    }

    proof fn rank_total(a: Self, b: Self) {
    }

    proof fn rank_transitive(a: Self, b: Self, c: Self) {
    }
}

impl RankCompare for Group {
    fn ranks_no_later(&self, other: &Self) -> (r: bool) {
        self.agents.len() >= other.agents.len()
    }
}

/// Busiest groups first.
impl Ranked for GroupView {
    open spec fn rank_le(self, other: Self) -> bool {
        self.agents.len() >= other.agents.len()
    }

    proof fn rank_total(a: Self, b: Self) {
    }

    proof fn rank_transitive(a: Self, b: Self, c: Self) {
    }
}

/// An exact copy of a group, by value.
fn copy_group(g: &Group) -> (r: Group)
    ensures
        r@ == g@,
{
    Group { label: g.label.clone(), agents: replicate_all(&g.agents) }
}

/// The first workspace with id `id`.
pub open spec fn workspace_of(ws: Seq<Workspace>, id: Seq<char>) -> Option<Workspace>
    decreases ws.len(),
{
    if ws.len() == 0 {
        None
    } else if ws[0].workspace_id@ == id {
        Some(ws[0])
    } else {
        workspace_of(ws.drop_first(), id)
    }
}

/// What groups an agent: its workspace's repository (shared by the main
/// checkout and every linked worktree), or the workspace itself.
pub open spec fn group_key(a: Agent, ws: Seq<Workspace>) -> Seq<char> {
    match workspace_of(ws, a.workspace_id@) {
        Some(w) => match w.worktree {
            Some(t) => t.repo_key@,
            None => "ws:"@ + a.workspace_id@,
        },
        None => "ws:"@ + a.workspace_id@,
    }
}

/// The label of the group an agent opens: the repository's name, the
/// workspace's label, or a dash when the workspace is gone.
pub open spec fn group_label(a: Agent, ws: Seq<Workspace>) -> Seq<char> {
    match workspace_of(ws, a.workspace_id@) {
        Some(w) => match w.worktree {
            Some(t) => t.repo_name@,
            None => w.label@,
        },
        None => "\u{2014}"@,
    }
}

/// A group under construction: its key, label and agents.
pub struct Bucket {
    pub key: Seq<char>,
    pub label: Seq<char>,
    pub agents: Seq<Agent>,
}

/// Index of the first of `keys` equal to `k`.
pub open spec fn first_match(keys: Seq<Seq<char>>, k: Seq<char>) -> Option<int>
    decreases keys.len(),
{
    if keys.len() == 0 {
        None
    } else if keys[0] == k {
        Some(0)
    } else {
        match first_match(keys.drop_first(), k) {
            Some(i) => Some(i + 1),
            None => None,
        }
    }
}

/// The keys of some buckets.
pub open spec fn keys_of(b: Seq<Bucket>) -> Seq<Seq<char>> {
    b.map_values(|x: Bucket| x.key)
}

/// Agents bucketed by key, buckets in order of first appearance, agents in
/// the order they came in within each bucket.
pub open spec fn buckets(agents: Seq<Agent>, ws: Seq<Workspace>) -> Seq<Bucket>
    decreases agents.len(),
{
    if agents.len() == 0 {
        Seq::empty()
    } else {
        let prev = buckets(agents.drop_last(), ws);
        let a = agents.last();
        let k = group_key(a, ws);
        match first_match(keys_of(prev), k) {
            Some(j) => prev.update(
                j,
                Bucket { key: prev[j].key, label: prev[j].label, agents: prev[j].agents.push(a) },
            ),
            None => prev.push(Bucket { key: k, label: group_label(a, ws), agents: seq![a] }),
        }
    }
}

/// The groups of the map: the buckets, busiest first, ties in order of first
/// appearance.
pub open spec fn grouped(agents: Seq<Agent>, ws: Seq<Workspace>) -> Seq<GroupView> {
    stable_sort(bucket_views(agents, ws))
}

/// The buckets as groups, in order of first appearance.
pub open spec fn bucket_views(agents: Seq<Agent>, ws: Seq<Workspace>) -> Seq<GroupView> {
    buckets(agents, ws).map_values(|b: Bucket| GroupView { label: b.label, agents: b.agents })
}

/// Holds of the agents whose group key is `k`.
pub open spec fn keyed(ws: Seq<Workspace>, k: Seq<char>) -> spec_fn(Agent) -> bool {
    |a: Agent| group_key(a, ws) == k
}

/// Find the workspace with id `id`, the first if several share it.
fn find_workspace(ws: &[Workspace], id: &str) -> (r: Option<usize>)
    ensures
        match r {
            Some(j) => j < ws@.len() && workspace_of(ws@, id@) == Some(ws@[j as int]),
            None => workspace_of(ws@, id@) is None,
        },
{
    let mut j: usize = 0;
    assert(ws@.skip(0) =~= ws@);
    while j < ws.len()
        invariant
            j <= ws@.len(),
            workspace_of(ws@, id@) == workspace_of(ws@.skip(j as int), id@),
        decreases ws.len() - j,
    {
        assert(ws@.skip(j as int).drop_first() =~= ws@.skip(j + 1));
        assert(ws@.skip(j as int)[0] == ws@[j as int]);
        if same_text(ws[j].workspace_id.as_str(), id) {
            return Some(j);
        }
        j = j + 1;
    }
    assert(ws@.skip(j as int).len() == 0);
    None
}

/// The key and label of the group an agent belongs to.
fn key_and_label(a: &Agent, ws: &[Workspace]) -> (r: (String, String))
    ensures
        r.0@ == group_key(*a, ws@),
        r.1@ == group_label(*a, ws@),
{
    match find_workspace(ws, a.workspace_id.as_str()) {
        Some(j) => match &ws[j].worktree {
            Some(t) => (t.repo_key.clone(), t.repo_name.clone()),
            None => {
                let mut key = String::from_str("ws:");
                key.append(a.workspace_id.as_str());
                (key, ws[j].label.clone())
            },
        },
        None => {
            let mut key = String::from_str("ws:");
            key.append(a.workspace_id.as_str());
            (key, String::from_str("\u{2014}"))
        },
    }
}

/// Find `key` among `keys`.
fn find_key(keys: &Vec<String>, key: &str) -> (r: Option<usize>)
    ensures
        match r {
            Some(j) => first_match(keys@.map_values(|s: String| s@), key@) == Some(j as int),
            None => first_match(keys@.map_values(|s: String| s@), key@) is None,
        },
{
    let ghost all = keys@.map_values(|s: String| s@);
    let mut j: usize = 0;
    while j < keys.len()
        invariant
            j <= keys.len(),
            all == keys@.map_values(|s: String| s@),
            forall|i: int| 0 <= i < j ==> all[i] != key@,
        decreases keys.len() - j,
    {
        if same_text(keys[j].as_str(), key) {
            proof {
                lemma_first_match_at(all, key@, j as int);
            }
            return Some(j);
        }
        j = j + 1;
    }
    proof {
        lemma_first_match_none(all, key@);
    }
    None
}

proof fn lemma_first_match_at(keys: Seq<Seq<char>>, k: Seq<char>, j: int)
    requires
        0 <= j < keys.len(),
        keys[j] == k,
        forall|i: int| 0 <= i < j ==> keys[i] != k,
    ensures
        first_match(keys, k) == Some(j),
    decreases j,
{
    if j > 0 {
        lemma_first_match_at(keys.drop_first(), k, j - 1);
    }
}

proof fn lemma_first_match_none(keys: Seq<Seq<char>>, k: Seq<char>)
    requires
        forall|i: int| 0 <= i < keys.len() ==> keys[i] != k,
    ensures
        first_match(keys, k) is None,
    decreases keys.len(),
{
    if keys.len() > 0 {
        lemma_first_match_none(keys.drop_first(), k);
    }
}

/// What `first_match` finds is a match, and nothing before it matches.
pub proof fn lemma_first_match(keys: Seq<Seq<char>>, k: Seq<char>)
    ensures
        match first_match(keys, k) {
            Some(j) => 0 <= j < keys.len() && keys[j] == k && forall|i: int| 0 <= i < j ==> keys[i] != k,
            None => forall|i: int| 0 <= i < keys.len() ==> keys[i] != k,
        },
    decreases keys.len(),
{
    if keys.len() > 0 {
        lemma_first_match(keys.drop_first(), k);
        if keys[0] != k {
            match first_match(keys.drop_first(), k) {
                Some(j) => {
                    assert forall|i: int| 0 <= i < j + 1 implies keys[i] != k by {
                        if i > 0 {
                            assert(keys[i] == keys.drop_first()[i - 1]);
                        }
                    }
                },
                None => {
                    assert forall|i: int| 0 <= i < keys.len() implies keys[i] != k by {
                        if i > 0 {
                            assert(keys[i] == keys.drop_first()[i - 1]);
                        }
                    }
                },
            }
        }
    }
}

/// Sort groups busiest first, ties in the order they came in.
fn sort_groups(v: &Vec<Group>) -> (out: Vec<Group>)
    ensures
        out@.map_values(|g: Group| g@) == stable_sort(v@.map_values(|g: Group| g@)),
{
    let order = stable_order(v);
    let mut out: Vec<Group> = Vec::new();
    let mut k: usize = 0;
    while k < order.len()
        invariant
            is_stable_order(v@, positions(order@)),
            reordered(v@, positions(order@)) == stable_sort(v@),
            k <= order.len(),
            out.len() == k,
            forall|j: int| 0 <= j < k ==> (#[trigger] out@[j])@ == v@[order@[j] as int]@,
        decreases order.len() - k,
    {
        proof {
            assert(positions(order@)[k as int] == order@[k as int] as int);
        }
        out.push(copy_group(&v[order[k]]));
        k = k + 1;
    }
    proof {
        let f = |g: Group| g@;
        assert forall|x: Group, y: Group| #[trigger] x.rank_le(y) == f(x).rank_le(f(y)) by {
        }
        lemma_stable_sort_map(v@, f);
        assert(out@.map_values(f) =~= reordered(v@, positions(order@)).map_values(f));
    }
    out
}

/// Bucket agents by repository, falling back to the workspace for workspaces
/// with no git worktree attached, busiest repositories first so they claim the
/// roomiest slots.
pub fn group_agents(agents: &[Agent], workspaces: &[Workspace]) -> (out: Vec<Group>)
    ensures
        out@.map_values(|g: Group| g@) == grouped(agents@, workspaces@),
{
    let ghost view_of = |b: Bucket| GroupView { label: b.label, agents: b.agents };
    let mut groups: Vec<Group> = Vec::new();
    let mut keys: Vec<String> = Vec::new();
    let mut i: usize = 0;
    while i < agents.len()
        invariant
            i <= agents@.len(),
            view_of == (|b: Bucket| GroupView { label: b.label, agents: b.agents }),
            keys@.map_values(|s: String| s@) == keys_of(buckets(agents@.take(i as int), workspaces@)),
            groups@.map_values(|g: Group| g@) == buckets(agents@.take(i as int), workspaces@).map_values(view_of),
        decreases agents.len() - i,
    {
        let a = &agents[i];
        let ghost prev = buckets(agents@.take(i as int), workspaces@);
        proof {
            assert(agents@.take(i + 1).drop_last() =~= agents@.take(i as int));
            assert(agents@.take(i + 1).last() == *a);
        }
        let (key, label) = key_and_label(a, workspaces);
        match find_key(&keys, key.as_str()) {
            Some(j) => {
                proof {
                    lemma_first_match(keys_of(prev), key@);
                    assert(keys@.map_values(|s: String| s@).len() == keys@.len());
                    assert(groups@.map_values(|g: Group| g@).len() == groups@.len());
                    assert(groups@.map_values(|g: Group| g@)[j as int] == view_of(prev[j as int]));
                }
                let ghost old_groups = groups@;
                let mut g = groups.remove(j);
                g.agents.push(a.clone());
                let ghost new_view = g@;
                groups.insert(j, g);
                proof {
                    assert(groups@ =~= old_groups.update(j as int, groups@[j as int]));
                    assert(new_view == view_of(Bucket {
                        key: prev[j as int].key,
                        label: prev[j as int].label,
                        agents: prev[j as int].agents.push(*a),
                    }));
                    let next = buckets(agents@.take(i + 1), workspaces@);
                    assert(next == prev.update(
                        j as int,
                        Bucket {
                            key: prev[j as int].key,
                            label: prev[j as int].label,
                            agents: prev[j as int].agents.push(*a),
                        },
                    ));
                    assert(keys@.map_values(|s: String| s@) =~= keys_of(next));
                    assert(groups@.map_values(|g: Group| g@) =~= next.map_values(view_of)) by {
                        assert forall|k: int| 0 <= k < groups@.len() implies groups@.map_values(
                            |g: Group| g@,
                        )[k] == next.map_values(view_of)[k] by {
                            if k != j {
                                assert(old_groups.map_values(|g: Group| g@)[k] == prev.map_values(view_of)[k]);
                            }
                        }
                    }
                }
            },
            None => {
                let ghost key_view = key@;
                let ghost old_keys = keys@;
                keys.push(key);
                assert(keys@ == old_keys.push(keys@[keys@.len() - 1]));
                let ghost old_groups = groups@;
                let mut members: Vec<Agent> = Vec::new();
                members.push(a.clone());
                groups.push(Group { label, agents: members });
                proof {
                    let next = buckets(agents@.take(i + 1), workspaces@);
                    assert(next == prev.push(
                        Bucket { key: key_view, label: group_label(*a, workspaces@), agents: seq![*a] },
                    ));
                    assert(keys@.map_values(|s: String| s@) =~= keys_of(next)) by {
                        assert forall|k: int| 0 <= k < keys@.len() implies keys@.map_values(
                            |s: String| s@,
                        )[k] == keys_of(next)[k] by {
                            if k < old_keys.len() {
                                assert(keys@[k] == old_keys[k]);
                                assert(old_keys.map_values(|s: String| s@)[k] == keys_of(prev)[k]);
                            }
                        }
                    }
                    assert(members@ =~= seq![*a]);
                    assert(old_groups.map_values(|g: Group| g@).len() == old_groups.len());
                    assert(prev.map_values(view_of).len() == prev.len());
                    assert(groups@.len() == old_groups.len() + 1);
                    assert(groups@[old_groups.len() as int]@ == view_of(
                        Bucket { key: key_view, label: group_label(*a, workspaces@), agents: seq![*a] },
                    ));
                    assert(groups@.map_values(|g: Group| g@) =~= next.map_values(view_of)) by {
                        assert forall|k: int| 0 <= k < groups@.len() implies groups@.map_values(
                            |g: Group| g@,
                        )[k] == next.map_values(view_of)[k] by {
                            if k < old_groups.len() {
                                assert(groups@[k] == old_groups[k]);
                                assert(old_groups.map_values(|g: Group| g@)[k] == prev.map_values(view_of)[k]);
                            }
                        }
                    }
                }
            },
        }
        i = i + 1;
    }
    proof {
        assert(agents@.take(agents@.len() as int) =~= agents@);
    }
    sort_groups(&groups)
}

/// A filter that nothing passes keeps nothing.
proof fn lemma_filter_none(s: Seq<Agent>, p: spec_fn(Agent) -> bool)
    requires
        forall|i: int| 0 <= i < s.len() ==> !p(#[trigger] s[i]),
    ensures
        s.filter(p) == Seq::<Agent>::empty(),
{
    broadcast use vstd::seq_lib::group_filter_ensures;
    if s.filter(p).len() > 0 {
        let x = s.filter(p)[0];
        assert(p(x));
        assert(s.filter(p).contains(x));
        s.lemma_filter_contains_rev(p, x);
        let m = choose|m: int| 0 <= m < s.len() && s[m] == x;
        assert(!p(s[m]));
    }
    assert(s.filter(p) =~= Seq::<Agent>::empty());
}

/// Bucketing partitions the agents. No two buckets share a key; each bucket
/// holds exactly the agents with its key, in the order they came in, and is
/// labelled after the first of them; every agent's key has a bucket.
pub proof fn buckets_partition_agents(agents: Seq<Agent>, ws: Seq<Workspace>)
    ensures
        keys_of(buckets(agents, ws)).no_duplicates(),
        forall|j: int| #![trigger buckets(agents, ws)[j]]
            0 <= j < buckets(agents, ws).len() ==> {
                let b = buckets(agents, ws)[j];
                &&& b.agents.len() > 0
                &&& b.agents == agents.filter(keyed(ws, b.key))
                &&& b.key == group_key(b.agents[0], ws)
                &&& b.label == group_label(b.agents[0], ws)
            },
        forall|i: int|
            0 <= i < agents.len() ==> keys_of(buckets(agents, ws)).contains(group_key(#[trigger] agents[i], ws)),
    decreases agents.len(),
{
    reveal(Seq::filter);
    if agents.len() > 0 {
        let rest = agents.drop_last();
        buckets_partition_agents(rest, ws);
        let prev = buckets(rest, ws);
        let a = agents.last();
        let k = group_key(a, ws);
        let cur = buckets(agents, ws);
        lemma_first_match(keys_of(prev), k);
        assert forall|i: int| 0 <= i < rest.len() implies #[trigger] agents[i] == rest[i] by {}
        match first_match(keys_of(prev), k) {
            Some(j0) => {
                assert(keys_of(cur) =~= keys_of(prev)) by {
                    assert forall|j: int| 0 <= j < prev.len() implies keys_of(cur)[j] == keys_of(prev)[j] by {
                        if j != j0 {
                            assert(cur[j] == prev[j]);
                        }
                    }
                }
                assert forall|j: int| #![trigger buckets(agents, ws)[j]]
                    0 <= j < cur.len() implies {
                        let b = buckets(agents, ws)[j];
                        &&& b.agents.len() > 0
                        &&& b.agents == agents.filter(keyed(ws, b.key))
                        &&& b.key == group_key(b.agents[0], ws)
                        &&& b.label == group_label(b.agents[0], ws)
                    } by {
                    assert(prev[j] == buckets(rest, ws)[j]);
                    assert(keys_of(prev)[j] == prev[j].key);
                    if j == j0 {
                        assert(keyed(ws, prev[j].key)(a));
                        assert(cur[j].agents == prev[j].agents.push(a));
                        assert(cur[j].agents[0] == prev[j].agents[0]);
                    } else {
                        assert(keys_of(prev)[j0] == k);
                        assert(prev[j].key != k);
                        assert(!keyed(ws, prev[j].key)(a));
                        assert(cur[j] == prev[j]);
                    }
                }
                assert forall|i: int| 0 <= i < agents.len() implies keys_of(cur).contains(
                    group_key(#[trigger] agents[i], ws),
                ) by {
                    if i == agents.len() - 1 {
                        assert(keys_of(cur)[j0] == k);
                    } else {
                        assert(keys_of(prev).contains(group_key(rest[i], ws)));
                    }
                }
            },
            None => {
                let nb = Bucket { key: k, label: group_label(a, ws), agents: seq![a] };
                assert(cur == prev.push(nb));
                assert(keys_of(cur) =~= keys_of(prev).push(k));
                assert(keys_of(cur).no_duplicates()) by {
                    assert forall|x: int, y: int| 0 <= x < keys_of(cur).len() && 0 <= y < keys_of(cur).len() && x != y
                        implies keys_of(cur)[x] != keys_of(cur)[y] by {
                        if x < prev.len() && y < prev.len() {
                            assert(keys_of(prev)[x] != keys_of(prev)[y]);
                        }
                    }
                }
                assert forall|j: int| #![trigger buckets(agents, ws)[j]]
                    0 <= j < cur.len() implies {
                        let b = buckets(agents, ws)[j];
                        &&& b.agents.len() > 0
                        &&& b.agents == agents.filter(keyed(ws, b.key))
                        &&& b.key == group_key(b.agents[0], ws)
                        &&& b.label == group_label(b.agents[0], ws)
                    } by {
                    if j < prev.len() {
                        assert(prev[j] == buckets(rest, ws)[j]);
                        assert(keys_of(prev)[j] == prev[j].key);
                        assert(!keyed(ws, prev[j].key)(a));
                        assert(cur[j] == prev[j]);
                    } else {
                        assert forall|i: int| 0 <= i < rest.len() implies !keyed(ws, k)(#[trigger] rest[i]) by {
                            assert(keys_of(prev).contains(group_key(rest[i], ws)));
                        }
                        lemma_filter_none(rest, keyed(ws, k));
                        assert(keyed(ws, k)(a));
                        assert(agents.filter(keyed(ws, k)) =~= seq![a]);
                    }
                }
                assert forall|i: int| 0 <= i < agents.len() implies keys_of(cur).contains(
                    group_key(#[trigger] agents[i], ws),
                ) by {
                    if i == agents.len() - 1 {
                        assert(keys_of(cur)[prev.len() as int] == k);
                    } else {
                        assert(keys_of(prev).contains(group_key(rest[i], ws)));
                        let m = choose|m: int| 0 <= m < keys_of(prev).len() && keys_of(prev)[m] == group_key(rest[i], ws);
                        assert(keys_of(cur)[m] == keys_of(prev)[m]);
                    }
                }
            },
        }
    } else {
        assert(keys_of(buckets(agents, ws)) =~= Seq::<Seq<char>>::empty());
    }
}

/// The map's groups partition the agents: each group holds exactly the agents
/// that share its key, in the order they came in, and is labelled after the
/// first of them; no two groups share a key; every agent is in some group; and
/// the groups come busiest first.
pub proof fn groups_partition_agents(agents: Seq<Agent>, ws: Seq<Workspace>)
    ensures
        forall|i: int| #![trigger grouped(agents, ws)[i]]
            0 <= i < grouped(agents, ws).len() ==> {
                let g = grouped(agents, ws)[i];
                &&& g.agents.len() > 0
                &&& g.agents == agents.filter(keyed(ws, group_key(g.agents[0], ws)))
                &&& g.label == group_label(g.agents[0], ws)
            },
        forall|i: int, j: int|
            0 <= i < j < grouped(agents, ws).len() ==> group_key((#[trigger] grouped(agents, ws)[i]).agents[0], ws)
                != group_key((#[trigger] grouped(agents, ws)[j]).agents[0], ws),
        forall|m: int|
            0 <= m < agents.len() ==> exists|i: int| #![trigger grouped(agents, ws)[i]]
                0 <= i < grouped(agents, ws).len() && grouped(agents, ws)[i].agents.contains(#[trigger] agents[m]),
        forall|i: int, j: int|
            0 <= i < j < grouped(agents, ws).len() ==> (#[trigger] grouped(agents, ws)[i]).agents.len()
                >= (#[trigger] grouped(agents, ws)[j]).agents.len(),
{
    broadcast use vstd::seq_lib::group_filter_ensures;
    buckets_partition_agents(agents, ws);
    let b = buckets(agents, ws);
    let v = bucket_views(agents, ws);
    let g = grouped(agents, ws);
    lemma_stable_order_exists(v);
    let o = choose|order: Seq<int>| is_stable_order(v, order);
    assert(g == reordered(v, o));
    assert(g.len() == b.len());
    assert forall|i: int| 0 <= i < g.len() implies #[trigger] g[i] == (GroupView {
        label: b[o[i]].label,
        agents: b[o[i]].agents,
    }) && 0 <= o[i] < b.len() by {
        assert(g[i] == v[o[i]]);
    }
    assert forall|i: int| #![trigger grouped(agents, ws)[i]]
        0 <= i < g.len() implies {
            let gi = grouped(agents, ws)[i];
            &&& gi.agents.len() > 0
            &&& gi.agents == agents.filter(keyed(ws, group_key(gi.agents[0], ws)))
            &&& gi.label == group_label(gi.agents[0], ws)
        } by {
        assert(g[i].agents == b[o[i]].agents);
        assert(b[o[i]] == buckets(agents, ws)[o[i]]);
    }
    assert forall|i: int, j: int| 0 <= i < j < g.len() implies group_key(
        (#[trigger] grouped(agents, ws)[i]).agents[0],
        ws,
    ) != group_key((#[trigger] grouped(agents, ws)[j]).agents[0], ws) by {
        assert(precedes(v, o[i], o[j]));
        assert(o[i] != o[j]);
        assert(g[i].agents == b[o[i]].agents);
        assert(g[j].agents == b[o[j]].agents);
        assert(b[o[i]] == buckets(agents, ws)[o[i]]);
        assert(b[o[j]] == buckets(agents, ws)[o[j]]);
        assert(keys_of(b)[o[i]] != keys_of(b)[o[j]]);
    }
    stable_sort_rearranges(v);
    assert forall|m: int| 0 <= m < agents.len() implies exists|i: int| #![trigger grouped(agents, ws)[i]]
        0 <= i < g.len() && grouped(agents, ws)[i].agents.contains(#[trigger] agents[m]) by {
        let k = group_key(agents[m], ws);
        assert(keys_of(b).contains(k));
        let p = choose|p: int| 0 <= p < keys_of(b).len() && keys_of(b)[p] == k;
        assert(b[p] == buckets(agents, ws)[p]);
        assert(keyed(ws, b[p].key)(agents[m]));
        agents.lemma_filter_contains(keyed(ws, b[p].key), m);
        assert(stable_sort(v).contains(v[p]));
        let i = choose|i: int| 0 <= i < stable_sort(v).len() && stable_sort(v)[i] == v[p];
        assert(grouped(agents, ws)[i].agents == b[p].agents);
    }
    stable_sort_is_sorted(v);
    assert forall|i: int, j: int| 0 <= i < j < g.len() implies (#[trigger] grouped(agents, ws)[i]).agents.len()
        >= (#[trigger] grouped(agents, ws)[j]).agents.len() by {
        assert(stable_sort(v)[i].rank_le(stable_sort(v)[j]));
    }
}

/// Every agent of some groups, group by group.
pub open spec fn agents_of(groups: Seq<GroupView>) -> Seq<Agent>
    decreases groups.len(),
{
    if groups.len() == 0 {
        Seq::empty()
    } else {
        agents_of(groups.drop_last()) + groups.last().agents
    }
}

/// The key each group's agents share (that of its first agent).
pub open spec fn group_keys(groups: Seq<GroupView>, ws: Seq<Workspace>) -> Seq<Seq<char>> {
    groups.map_values(|g: GroupView| group_key(g.agents[0], ws))
}

/// How often an agent occurs across groups that are each the agents with one
/// key, no key twice: as often as among the agents when its key has a group,
/// never otherwise.
proof fn lemma_groups_count(groups: Seq<GroupView>, agents: Seq<Agent>, ws: Seq<Workspace>, x: Agent)
    requires
        forall|i: int|
            0 <= i < groups.len() ==> (#[trigger] groups[i]).agents.len() > 0 && groups[i].agents == agents.filter(
                keyed(ws, group_key(groups[i].agents[0], ws)),
            ),
        group_keys(groups, ws).no_duplicates(),
    ensures
        agents_of(groups).to_multiset().count(x) == if group_keys(groups, ws).contains(group_key(x, ws)) {
            agents.to_multiset().count(x)
        } else {
            0
        },
    decreases groups.len(),
{
    broadcast use vstd::multiset::group_multiset_axioms;
    broadcast use vstd::seq_lib::group_to_multiset_ensures;

    let kx = group_key(x, ws);
    if groups.len() == 0 {
        assert(agents_of(groups) =~= Seq::<Agent>::empty());
        assert(!agents_of(groups).contains(x));
        assert(!group_keys(groups, ws).contains(kx));
    } else {
        let rest = groups.drop_last();
        let last = groups.last();
        let keys = group_keys(groups, ws);
        assert(group_keys(rest, ws) =~= keys.drop_last());
        assert forall|i: int| 0 <= i < rest.len() implies (#[trigger] rest[i]).agents.len() > 0
            && rest[i].agents == agents.filter(keyed(ws, group_key(rest[i].agents[0], ws))) by {
            assert(rest[i] == groups[i]);
        }
        assert(group_keys(rest, ws).no_duplicates()) by {
            assert forall|a: int, b: int| 0 <= a < group_keys(rest, ws).len() && 0 <= b < group_keys(rest, ws).len() && a != b
                implies group_keys(rest, ws)[a] != group_keys(rest, ws)[b] by {
                assert(keys[a] != keys[b]);
            }
        }
        lemma_groups_count(rest, agents, ws, x);
        vstd::seq_lib::lemma_multiset_commutative(agents_of(rest), last.agents);
        let k = group_key(last.agents[0], ws);
        assert(last == groups[groups.len() - 1]);
        crate::ordering::filter_keeps_exactly_what_passes(agents, keyed(ws, k), x);
        assert(keys[keys.len() - 1] == k);
        if group_keys(rest, ws).contains(kx) {
            let a = choose|a: int| 0 <= a < group_keys(rest, ws).len() && group_keys(rest, ws)[a] == kx;
            assert(keys[a] == kx);
            if k == kx {
                assert(keys[a] == keys[keys.len() - 1]);
            }
            assert(keys.contains(kx));
        } else if k == kx {
            assert(keys.contains(kx));
        } else {
            assert forall|a: int| 0 <= a < keys.len() implies keys[a] != kx by {
                if a < keys.len() - 1 {
                    assert(keys[a] == group_keys(rest, ws)[a]);
                }
            }
        }
    }
}

/// The map's groups regroup the agents and nothing else: together they hold
/// every agent exactly as often as it was reported; an agent is in a group
/// exactly when it shares that group's key, so two agents share a group
/// exactly when they share a key.
pub proof fn group_agents_regroups(agents: Seq<Agent>, ws: Seq<Workspace>)
    ensures
        agents_of(grouped(agents, ws)).to_multiset() == agents.to_multiset(),
        forall|i: int, m: int|
            0 <= i < grouped(agents, ws).len() && 0 <= m < agents.len() ==> ((#[trigger] grouped(agents, ws)[i]).agents.contains(
                #[trigger] agents[m],
            ) <==> group_key(agents[m], ws) == group_key(grouped(agents, ws)[i].agents[0], ws)),
{
    broadcast use vstd::seq_lib::group_filter_ensures;
    broadcast use vstd::seq_lib::group_to_multiset_ensures;

    groups_partition_agents(agents, ws);
    let g = grouped(agents, ws);
    assert forall|i: int, m: int| 0 <= i < g.len() && 0 <= m < agents.len() implies ((#[trigger] grouped(
        agents,
        ws,
    )[i]).agents.contains(#[trigger] agents[m]) <==> group_key(agents[m], ws) == group_key(
        grouped(agents, ws)[i].agents[0],
        ws,
    )) by {
        let k = group_key(g[i].agents[0], ws);
        assert(g[i].agents == agents.filter(keyed(ws, k)));
        if group_key(agents[m], ws) == k {
            agents.lemma_filter_contains(keyed(ws, k), m);
        }
        if g[i].agents.contains(agents[m]) {
            let q = choose|q: int| 0 <= q < g[i].agents.len() && g[i].agents[q] == agents[m];
            assert(keyed(ws, k)(agents.filter(keyed(ws, k))[q]));
        }
    }
    let keys = group_keys(g, ws);
    assert(keys.no_duplicates()) by {
        assert forall|a: int, b: int| 0 <= a < keys.len() && 0 <= b < keys.len() && a != b implies keys[a] != keys[b] by {
            if a < b {
                assert(group_key(g[a].agents[0], ws) != group_key(g[b].agents[0], ws));
            } else {
                assert(group_key(g[b].agents[0], ws) != group_key(g[a].agents[0], ws));
            }
        }
    }
    assert forall|x: Agent| agents_of(g).to_multiset().count(x) == agents.to_multiset().count(x) by {
        lemma_groups_count(g, agents, ws, x);
        if agents.contains(x) {
            let m = choose|m: int| 0 <= m < agents.len() && agents[m] == x;
            let i = choose|i: int| #![trigger grouped(agents, ws)[i]]
                0 <= i < g.len() && grouped(agents, ws)[i].agents.contains(agents[m]);
            assert(keys[i] == group_key(x, ws));
        }
    }
    assert(agents_of(g).to_multiset() =~= agents.to_multiset());
}

/// Each agent's group key, in the order the agents came in.
pub open spec fn agent_keys(agents: Seq<Agent>, ws: Seq<Workspace>) -> Seq<Seq<char>> {
    agents.map_values(|a: Agent| group_key(a, ws))
}

/// Position of the first agent with key `k`; the number of agents when none
/// has it.
pub open spec fn first_seen(agents: Seq<Agent>, ws: Seq<Workspace>, k: Seq<char>) -> int {
    match first_match(agent_keys(agents, ws), k) {
        Some(p) => p,
        None => agents.len() as int,
    }
}

proof fn lemma_first_match_push(s: Seq<Seq<char>>, x: Seq<char>, k: Seq<char>)
    ensures
        first_match(s.push(x), k) == match first_match(s, k) {
            Some(p) => Some(p),
            None => if x == k {
                Some(s.len() as int)
            } else {
                None
            },
        },
    decreases s.len(),
{
    if s.len() > 0 {
        assert(s.push(x).drop_first() =~= s.drop_first().push(x));
        assert(s.push(x)[0] == s[0]);
        lemma_first_match_push(s.drop_first(), x, k);
    } else {
        assert(s.push(x).drop_first() =~= Seq::<Seq<char>>::empty());
        assert(s.push(x)[0] == x);
        assert(first_match(Seq::<Seq<char>>::empty(), k) is None);
        assert(first_match(s, k) is None);
    }
}

/// Buckets come in the order their keys are first seen among the agents.
proof fn lemma_buckets_in_first_seen_order(agents: Seq<Agent>, ws: Seq<Workspace>)
    ensures
        forall|j: int| 0 <= j < buckets(agents, ws).len() ==> first_seen(agents, ws, (#[trigger] buckets(agents, ws)[j]).key)
            < agents.len(),
        forall|j: int, l: int|
            0 <= j < l < buckets(agents, ws).len() ==> first_seen(agents, ws, (#[trigger] buckets(agents, ws)[j]).key)
                < first_seen(agents, ws, (#[trigger] buckets(agents, ws)[l]).key),
    decreases agents.len(),
{
    if agents.len() > 0 {
        let rest = agents.drop_last();
        lemma_buckets_in_first_seen_order(rest, ws);
        buckets_partition_agents(rest, ws);
        let prev = buckets(rest, ws);
        let cur = buckets(agents, ws);
        let a = agents.last();
        let k = group_key(a, ws);
        assert(agent_keys(agents, ws) =~= agent_keys(rest, ws).push(k));
        lemma_first_match(keys_of(prev), k);
        assert forall|j: int| 0 <= j < prev.len() implies first_seen(agents, ws, #[trigger] prev[j].key) == first_seen(
            rest,
            ws,
            prev[j].key,
        ) && first_seen(rest, ws, prev[j].key) < rest.len() by {
            assert(prev[j] == buckets(rest, ws)[j]);
            lemma_first_match_push(agent_keys(rest, ws), k, prev[j].key);
        }
        match first_match(keys_of(prev), k) {
            Some(j0) => {
                assert forall|j: int| 0 <= j < cur.len() implies #[trigger] cur[j].key == prev[j].key by {
                    if j != j0 {
                        assert(cur[j] == prev[j]);
                    }
                }
            },
            None => {
                assert(cur == prev.push(Bucket { key: k, label: group_label(a, ws), agents: seq![a] }));
                assert forall|i: int| 0 <= i < agent_keys(rest, ws).len() implies agent_keys(rest, ws)[i] != k by {
                    assert(agent_keys(rest, ws)[i] == group_key(rest[i], ws));
                    assert(keys_of(prev).contains(group_key(rest[i], ws)));
                }
                lemma_first_match_none(agent_keys(rest, ws), k);
                lemma_first_match_push(agent_keys(rest, ws), k, k);
                assert(first_seen(agents, ws, k) == rest.len());
                assert forall|j: int| 0 <= j < prev.len() implies #[trigger] cur[j] == prev[j] by {}
                assert(cur[prev.len() as int].key == k);
            },
        }
    }
}

/// Groups of equal size come in the order their keys are first seen among the
/// agents.
pub proof fn equal_groups_keep_first_appearance(agents: Seq<Agent>, ws: Seq<Workspace>)
    ensures
        forall|i: int, j: int|
            0 <= i < j < grouped(agents, ws).len() && (#[trigger] grouped(agents, ws)[i]).agents.len() == (
            #[trigger] grouped(agents, ws)[j]).agents.len() ==> first_seen(
                agents,
                ws,
                group_key(grouped(agents, ws)[i].agents[0], ws),
            ) < first_seen(agents, ws, group_key(grouped(agents, ws)[j].agents[0], ws)),
{
    buckets_partition_agents(agents, ws);
    lemma_buckets_in_first_seen_order(agents, ws);
    let b = buckets(agents, ws);
    let v = bucket_views(agents, ws);
    let g = grouped(agents, ws);
    lemma_stable_order_exists(v);
    let o = choose|order: Seq<int>| is_stable_order(v, order);
    assert(g == reordered(v, o));
    assert forall|i: int, j: int|
        0 <= i < j < g.len() && (#[trigger] grouped(agents, ws)[i]).agents.len() == (
        #[trigger] grouped(agents, ws)[j]).agents.len() implies first_seen(
            agents,
            ws,
            group_key(grouped(agents, ws)[i].agents[0], ws),
        ) < first_seen(agents, ws, group_key(grouped(agents, ws)[j].agents[0], ws)) by {
        assert(precedes(v, o[i], o[j]));
        assert(g[i] == v[o[i]]);
        assert(g[j] == v[o[j]]);
        assert(o[i] < o[j]);
        assert(b[o[i]] == buckets(agents, ws)[o[i]]);
        assert(b[o[j]] == buckets(agents, ws)[o[j]]);
    }
}

/// The repository an agent's workspace is a checkout of, if it has one: the
/// `repo_key` of the worktree of the first workspace with the agent's id.
pub open spec fn repo_of(a: Agent, ws: Seq<Workspace>) -> Option<Seq<char>> {
    match workspace_of(ws, a.workspace_id@) {
        Some(w) => match w.worktree {
            Some(t) => Some(t.repo_key@),
            None => None,
        },
        None => None,
    }
}

proof fn lemma_prefix_cancels(p: Seq<char>, x: Seq<char>, y: Seq<char>)
    ensures
        (p + x == p + y) <==> x == y,
{
    if p + x == p + y {
        assert(x =~= (p + x).skip(p.len() as int));
        assert(y =~= (p + y).skip(p.len() as int));
    }
}

/// Agents are grouped by repository: two agents whose workspaces are
/// checkouts of repositories share a group exactly when it is the same
/// repository (`repo_key`), whichever checkout or linked worktree each is in;
/// two agents whose workspaces are plain shells share a group exactly when it
/// is the same workspace. Every agent is in some group.
pub proof fn agents_group_by_repository(agents: Seq<Agent>, ws: Seq<Workspace>)
    ensures
        forall|i: int, m: int, n: int|
            #![trigger grouped(agents, ws)[i], agents[m], agents[n]]
            0 <= i < grouped(agents, ws).len() && 0 <= m < agents.len() && 0 <= n < agents.len()
                && grouped(agents, ws)[i].agents.contains(agents[m]) ==> {
                &&& repo_of(agents[m], ws) is Some && repo_of(agents[n], ws) is Some ==> (grouped(
                    agents,
                    ws,
                )[i].agents.contains(agents[n]) <==> repo_of(agents[m], ws) == repo_of(agents[n], ws))
                &&& repo_of(agents[m], ws) is None && repo_of(agents[n], ws) is None ==> (grouped(
                    agents,
                    ws,
                )[i].agents.contains(agents[n]) <==> agents[m].workspace_id@ == agents[n].workspace_id@)
            },
        forall|m: int|
            0 <= m < agents.len() ==> exists|i: int| #![trigger grouped(agents, ws)[i]]
                0 <= i < grouped(agents, ws).len() && grouped(agents, ws)[i].agents.contains(#[trigger] agents[m]),
{
    groups_partition_agents(agents, ws);
    group_agents_regroups(agents, ws);
    assert forall|i: int, m: int, n: int|
        #![trigger grouped(agents, ws)[i], agents[m], agents[n]]
        0 <= i < grouped(agents, ws).len() && 0 <= m < agents.len() && 0 <= n < agents.len()
            && grouped(agents, ws)[i].agents.contains(agents[m]) implies {
            &&& repo_of(agents[m], ws) is Some && repo_of(agents[n], ws) is Some ==> (grouped(
                agents,
                ws,
            )[i].agents.contains(agents[n]) <==> repo_of(agents[m], ws) == repo_of(agents[n], ws))
            &&& repo_of(agents[m], ws) is None && repo_of(agents[n], ws) is None ==> (grouped(
                agents,
                ws,
            )[i].agents.contains(agents[n]) <==> agents[m].workspace_id@ == agents[n].workspace_id@)
        } by {
        let a = agents[m];
        let b = agents[n];
        let g = grouped(agents, ws)[i];
        assert(g.agents.contains(a) <==> group_key(a, ws) == group_key(g.agents[0], ws));
        assert(g.agents.contains(b) <==> group_key(b, ws) == group_key(g.agents[0], ws));
        lemma_prefix_cancels("ws:"@, a.workspace_id@, b.workspace_id@);
    }
}

// ---------------------------------------------------------------------------
// Group nodes
// ---------------------------------------------------------------------------

/// The most urgent status among some agents; `Unknown` when there are none.
pub open spec fn worst_of(agents: Seq<Agent>) -> Status
    decreases agents.len(),
{
    if agents.len() == 0 {
        Status::Unknown
    } else {
        let rest = worst_of(agents.drop_last());
        let here = status_named(agents.last().agent_status@);
        if urgency(here) < urgency(rest) {
            here
        } else {
            rest
        }
    }
}

/// Worst status among the agents, so a collapsed group still shows that
/// something inside it needs attention.
pub fn worst_status(agents: &[Agent]) -> (s: Status)
    ensures
        s == worst_of(agents@),
{
    let mut worst = Status::Unknown;
    let mut i: usize = 0;
    while i < agents.len()
        invariant
            i <= agents@.len(),
            worst == worst_of(agents@.take(i as int)),
        decreases agents.len() - i,
    {
        proof {
            assert(agents@.take(i + 1).drop_last() =~= agents@.take(i as int));
        }
        let here = Status::parse(agents[i].agent_status.as_str());
        if here.priority() < worst.priority() {
            worst = here;
        }
        i = i + 1;
    }
    proof {
        assert(agents@.take(agents@.len() as int) =~= agents@);
    }
    worst
}

/// The worst status is at least as urgent as every agent's, and belongs to
/// one of them when there are any.
pub proof fn worst_is_most_urgent(agents: Seq<Agent>)
    ensures
        forall|i: int| 0 <= i < agents.len() ==> urgency(worst_of(agents)) <= urgency(
            status_named(#[trigger] agents[i].agent_status@),
        ),
        agents.len() > 0 ==> exists|i: int| 0 <= i < agents.len() && worst_of(agents) == status_named(
            #[trigger] agents[i].agent_status@,
        ),
    decreases agents.len(),
{
    if agents.len() > 0 {
        let rest = agents.drop_last();
        worst_is_most_urgent(rest);
        assert forall|i: int| 0 <= i < agents.len() implies urgency(worst_of(agents)) <= urgency(
            status_named(#[trigger] agents[i].agent_status@),
        ) by {
            if i < agents.len() - 1 {
                assert(agents[i] == rest[i]);
            }
        }
        let here = status_named(agents.last().agent_status@);
        if urgency(here) < urgency(worst_of(rest)) {
            assert(worst_of(agents) == status_named(agents[agents.len() - 1].agent_status@));
        } else if rest.len() > 0 {
            let i = choose|i: int| 0 <= i < rest.len() && worst_of(rest) == status_named(
                #[trigger] rest[i].agent_status@,
            );
            assert(agents[i] == rest[i]);
        } else {
            assert(urgency(worst_of(rest)) == 4);
            assert(here == Status::Unknown);
            assert(worst_of(agents) == status_named(agents[agents.len() - 1].agent_status@));
        }
    }
}

/// Width of a group's box: its label plus six cells of frame and padding,
/// between ten and thirty-four cells. The count is taken as a `u16`, as the
/// grid's coordinates are.
pub open spec fn group_box_width(label_chars: nat) -> u16 {
    let w = ((label_chars % 65536) + 6) % 65536;
    if w < 10 {
        10
    } else if w > 34 {
        34
    } else {
        w as u16
    }
}

/// Width of the box for a group labelled `label`.
pub fn group_width(label: &str) -> (w: u16)
    ensures
        w == group_box_width(label@.len()),
        10 <= w <= 34,
{
    let n = crate::text::chars_of(label).len();
    let short = (n % 65536) as u16;
    let w = short.wrapping_add(6);
    assert(w == ((n % 65536) + 6) % 65536) by (nonlinear_arith)
        requires
            short == n % 65536,
            w == (short + 6) % 65536,
    ;
    if w < 10 {
        10
    } else if w > 34 {
        34
    } else {
        w
    }
}

/// One repository group on the map.
#[derive(Debug)]
pub struct GroupNode {
    pub label: String,
    pub rect: Rect,
    pub agent_count: usize,
    /// Worst status among the group's agents, so a collapsed group still shows
    /// that something inside it needs attention.
    pub status: Status,
}

/// The node for `group`, placed at `rect`.
pub fn group_node(group: &Group, rect: Rect) -> (n: GroupNode)
    ensures
        n.label@ == group.label@,
        n.rect == rect,
        n.agent_count == group.agents@.len(),
        n.status == worst_of(group.agents@),
{
    GroupNode {
        label: group.label.clone(),
        rect,
        agent_count: group.agents.len(),
        status: worst_status(group.agents.as_slice()),
    }
}

/// What an agent's box says it is doing: its cleaned terminal title, or its
/// agent name when the title is missing or only decoration.
pub open spec fn title_of(a: Agent) -> Seq<char> {
    match a.terminal_title_stripped {
        Some(t) => if cleaned_title(t@).len() > 0 {
            cleaned_title(t@)
        } else {
            a.agent@
        },
        None => a.agent@,
    }
}

/// The title shown for an agent.
pub fn agent_title(a: &Agent) -> (t: String)
    ensures
        t@ == title_of(*a),
{
    match &a.terminal_title_stripped {
        Some(t) => {
            let c = clean_title(t.as_str());
            if c.as_str().is_empty() {
                a.agent.clone()
            } else {
                c
            }
        },
        None => a.agent.clone(),
    }
}

// ---------------------------------------------------------------------------
// Connectors
// ---------------------------------------------------------------------------

/// `a / b` rounded toward zero, as integer division does on the machine.
pub open spec fn div_toward_zero(a: int, b: int) -> int {
    if a >= 0 {
        a / b
    } else {
        -((-a) / b)
    }
}

/// Number of steps a connector from `from` to `to` takes: the longer axis
/// distance, at least one.
pub open spec fn connector_steps(from: (u16, u16), to: (u16, u16)) -> int {
    let dx = if to.0 >= from.0 { to.0 - from.0 } else { from.0 - to.0 };
    let dy = if to.1 >= from.1 { to.1 - from.1 } else { from.1 - to.1 };
    let m = if dx >= dy { dx } else { dy };
    if m >= 1 {
        m
    } else {
        1
    }
}

/// The `i`-th interior point of the connector from `from` to `to`.
pub open spec fn connector_point(from: (u16, u16), to: (u16, u16), i: int) -> (int, int) {
    let steps = connector_steps(from, to);
    (
        from.0 + div_toward_zero((to.0 - from.0) * i, steps),
        from.1 + div_toward_zero((to.1 - from.1) * i, steps),
    )
}

/// Whether a point lies inside `area`.
pub open spec fn inside(p: (int, int), area: Rect) -> bool {
    area.x <= p.0 < area.x + area.w && area.y <= p.1 < area.y + area.h
}

/// The dot trail from a group to one of its agents: the interior points of
/// the straight line between the two centres, in order, minus those outside
/// `area`.
pub open spec fn connector_trail(from: (u16, u16), to: (u16, u16), area: Rect) -> Seq<(u16, u16)> {
    Seq::new((connector_steps(from, to) - 1) as nat, |k: int| connector_point(from, to, k + 1)).filter(
        |p: (int, int)| inside(p, area),
    ).map_values(|p: (int, int)| (p.0 as u16, p.1 as u16))
}

/// The cells of the dot trail from `from` to `to` that fall inside `area`,
/// drawn under the boxes.
pub fn connector_points(from: (u16, u16), to: (u16, u16), area: Rect) -> (out: Vec<(u16, u16)>)
    requires
        fits_grid(area, 0),
    ensures
        out@ == connector_trail(from, to, area),
{
    let x0 = from.0 as i64;
    let y0 = from.1 as i64;
    let x1 = to.0 as i64;
    let y1 = to.1 as i64;
    let dx = if x1 >= x0 { x1 - x0 } else { x0 - x1 };
    let dy = if y1 >= y0 { y1 - y0 } else { y0 - y1 };
    let m = if dx >= dy { dx } else { dy };
    let steps = if m >= 1 { m } else { 1 };
    let ghost all = Seq::new((steps - 1) as nat, |k: int| connector_point(from, to, k + 1));
    let ghost pred = |p: (int, int)| inside(p, area);
    let ghost to_cell = |p: (int, int)| (p.0 as u16, p.1 as u16);
    let mut out: Vec<(u16, u16)> = Vec::new();
    let mut i: i64 = 1;
    while i < steps
        invariant
            1 <= i <= steps,
            steps == connector_steps(from, to),
            1 <= steps <= 65535,
            x0 == from.0 && y0 == from.1 && x1 == to.0 && y1 == to.1,
            all == Seq::new((steps - 1) as nat, |k: int| connector_point(from, to, k + 1)),
            pred == (|p: (int, int)| inside(p, area)),
            fits_grid(area, 0),
            to_cell == (|p: (int, int)| (p.0 as u16, p.1 as u16)),
            out@ == all.take(i - 1).filter(pred).map_values(to_cell),
        decreases steps - i,
    {
        assert(-65535 <= x1 - x0 <= 65535 && -65535 <= y1 - y0 <= 65535);
        assert(-65535 * 65535 <= (x1 - x0) * i <= 65535 * 65535) by (nonlinear_arith)
            requires
                -65535 <= x1 - x0 <= 65535,
                1 <= i <= 65535,
        ;
        assert(-65535 * 65535 <= (y1 - y0) * i <= 65535 * 65535) by (nonlinear_arith)
            requires
                -65535 <= y1 - y0 <= 65535,
                1 <= i <= 65535,
        ;
        let nx = (x1 - x0) * i;
        let ny = (y1 - y0) * i;
        let qx = if nx >= 0 { nx / steps } else { -((-nx) / steps) };
        let qy = if ny >= 0 { ny / steps } else { -((-ny) / steps) };
        let x = x0 + qx;
        let y = y0 + qy;
        let ghost p = connector_point(from, to, i as int);
        proof {
            assert(all[i - 1] == p);
            assert(all.take(i as int).drop_last() =~= all.take(i - 1));
            reveal_with_fuel(Seq::<_>::filter, 1);
            lemma_filter_map_push(all.take(i - 1), all[i - 1], pred, to_cell);
            assert(all.take(i as int) =~= all.take(i - 1).push(all[i - 1]));
        }
        let in_area = !(x < area.x as i64 || y < area.y as i64 || x >= area.x as i64 + area.w as i64
            || y >= area.y as i64 + area.h as i64);
        if in_area {
            out.push((x as u16, y as u16));
        }
        i = i + 1;
    }
    proof {
        assert(all.take(steps - 1) =~= all);
    }
    out
}

/// Filtering then mapping a sequence grown by one element.
proof fn lemma_filter_map_push(
    s: Seq<(int, int)>,
    x: (int, int),
    pred: spec_fn((int, int)) -> bool,
    f: spec_fn((int, int)) -> (u16, u16),
)
    ensures
        s.push(x).filter(pred).map_values(f) == if pred(x) {
            s.filter(pred).map_values(f).push(f(x))
        } else {
            s.filter(pred).map_values(f)
        },
{
    reveal_with_fuel(Seq::<_>::filter, 1);
    assert(s.push(x).drop_last() =~= s);
    if pred(x) {
        assert(s.push(x).filter(pred) == s.filter(pred).push(x));
        assert(s.filter(pred).push(x).map_values(f) =~= s.filter(pred).map_values(f).push(f(x)));
    }
}

} // verus!
