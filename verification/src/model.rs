//! The daybook collector's document, and the questions the pane asks of it.
//!
//! Every field has a default: the collector and the pane version
//! independently, and a pane that refuses to render because one new field is
//! missing is worse than one that renders a slightly thinner picture. The
//! `schema` number guards the shape changes that actually matter.

use vstd::prelude::*;

use crate::copies::{replicate_all, Replicate};
use crate::ordering::{is_stable_order, positions, reordered, stable_order, stable_sort, RankCompare, Ranked};
use crate::text::{compare_text, lemma_text_lt_total, lemma_text_lt_transitive, text_lt, Precedence};

pub use crate::text::truncate;

verus! {

/// Schema this pane was written against. A document from the future still
/// renders, but the mismatch is surfaced rather than hidden.
pub const SCHEMA: u32 = 1;

/// The window the document covers.
#[derive(Debug)]
pub struct Window {
    pub label: String,
    pub days_back: i64,
    pub source: String,
}

impl Replicate for Window {
    fn replicate(&self) -> (r: Self) {
        Window { label: self.label.clone(), days_back: self.days_back, source: self.source.clone() }
    }
}

impl Clone for Window {
    fn clone(&self) -> (r: Self)
        ensures
            r == *self,
    {
        self.replicate()
    }
}

impl Default for Window {
    fn default() -> (r: Self)
        ensures
            r.label@ == Seq::<char>::empty(),
            r.days_back == 0,
            r.source@ == Seq::<char>::empty(),
    {
        Window { label: String::new(), days_back: 0, source: String::new() }
    }
}

/// Headline counts.
#[derive(Debug, Clone, Copy)]
pub struct Totals {
    pub commits: usize,
    pub repos_touched: usize,
    pub repos_scanned: usize,
    pub sessions: usize,
    pub prs_open: usize,
    pub prs_merged: usize,
    pub reviews_requested: usize,
    pub agents: usize,
    pub agents_blocked: usize,
    pub agents_done: usize,
}

impl Default for Totals {
    fn default() -> (r: Self)
        ensures
            r == (Totals {
                commits: 0,
                repos_touched: 0,
                repos_scanned: 0,
                sessions: 0,
                prs_open: 0,
                prs_merged: 0,
                reviews_requested: 0,
                agents: 0,
                agents_blocked: 0,
                agents_done: 0,
            }),
    {
        Totals {
            commits: 0,
            repos_touched: 0,
            repos_scanned: 0,
            sessions: 0,
            prs_open: 0,
            prs_merged: 0,
            reviews_requested: 0,
            agents: 0,
            agents_blocked: 0,
            agents_done: 0,
        }
    }
}

/// One commit in the window.
#[derive(Debug)]
pub struct Commit {
    pub sha: String,
    pub subject: String,
}

impl Replicate for Commit {
    fn replicate(&self) -> (r: Self) {
        Commit { sha: self.sha.clone(), subject: self.subject.clone() }
    }
}

impl Clone for Commit {
    fn clone(&self) -> (r: Self)
        ensures
            r == *self,
    {
        self.replicate()
    }
}

impl Default for Commit {
    fn default() -> (r: Self)
        ensures
            r.sha@ == Seq::<char>::empty(),
            r.subject@ == Seq::<char>::empty(),
    {
        Commit { sha: String::new(), subject: String::new() }
    }
}

/// One checkout (main or linked worktree) of a repository.
#[derive(Debug)]
pub struct Checkout {
    pub branch: String,
    pub is_worktree: bool,
    pub dirty: usize,
    pub ahead: usize,
    pub behind_base: usize,
}

impl Replicate for Checkout {
    fn replicate(&self) -> (r: Self) {
        Checkout {
            branch: self.branch.clone(),
            is_worktree: self.is_worktree,
            dirty: self.dirty,
            ahead: self.ahead,
            behind_base: self.behind_base,
        }
    }
}

impl Clone for Checkout {
    fn clone(&self) -> (r: Self)
        ensures
            r == *self,
    {
        self.replicate()
    }
}

impl Default for Checkout {
    fn default() -> (r: Self)
        ensures
            r.branch@ == Seq::<char>::empty(),
            !r.is_worktree,
            r.dirty == 0,
            r.ahead == 0,
            r.behind_base == 0,
    {
        Checkout { branch: String::new(), is_worktree: false, dirty: 0, ahead: 0, behind_base: 0 }
    }
}

/// A checkout carries uncommitted or unpushed work.
pub open spec fn busy(c: Checkout) -> bool {
    c.dirty > 0 || c.ahead > 0
}

/// Checkouts sort with the most uncommitted files first, then the most
/// unpushed commits.
impl Ranked for Checkout {
    open spec fn rank_le(self, other: Self) -> bool {
        self.dirty > other.dirty || (self.dirty == other.dirty && self.ahead >= other.ahead)
    }

    proof fn rank_total(a: Self, b: Self) {
    }

    proof fn rank_transitive(a: Self, b: Self, c: Self) {
    }

}

impl RankCompare for Checkout {
    fn ranks_no_later(&self, other: &Self) -> (r: bool) {
        self.dirty > other.dirty || (self.dirty == other.dirty && self.ahead >= other.ahead)
    }
}

/// One repository and what moved in it.
#[derive(Debug)]
pub struct Repo {
    pub name: String,
    pub commits: Vec<Commit>,
    pub commits_by_others: usize,
    pub dirty: usize,
    pub ahead: usize,
    pub checkouts: Vec<Checkout>,
}

/// A repository as values: its lists as sequences.
pub struct RepoView {
    pub name: String,
    pub commits: Seq<Commit>,
    pub commits_by_others: usize,
    pub dirty: usize,
    pub ahead: usize,
    pub checkouts: Seq<Checkout>,
}

impl View for Repo {
    type V = RepoView;

    open spec fn view(&self) -> RepoView {
        RepoView {
            name: self.name,
            commits: self.commits@,
            commits_by_others: self.commits_by_others,
            dirty: self.dirty,
            ahead: self.ahead,
            checkouts: self.checkouts@,
        }
    }
}

impl Clone for Repo {
    fn clone(&self) -> (r: Self)
        ensures
            r@ == self@,
    {
        Repo {
            name: self.name.clone(),
            commits: replicate_all(&self.commits),
            commits_by_others: self.commits_by_others,
            dirty: self.dirty,
            ahead: self.ahead,
            checkouts: replicate_all(&self.checkouts),
        }
    }
}

impl Default for Repo {
    fn default() -> (r: Self)
        ensures
            r.name@ == Seq::<char>::empty(),
            r.commits@ == Seq::<Commit>::empty(),
            r.commits_by_others == 0,
            r.dirty == 0,
            r.ahead == 0,
            r.checkouts@ == Seq::<Checkout>::empty(),
    {
        Repo {
            name: String::new(),
            commits: Vec::new(),
            commits_by_others: 0,
            dirty: 0,
            ahead: 0,
            checkouts: Vec::new(),
        }
    }
}

/// A repository did something worth a row.
pub open spec fn repo_active(r: Repo) -> bool {
    r.commits@.len() > 0 || r.dirty > 0 || r.ahead > 0
}

impl Repo {
    /// Whether this repository did anything worth a row.
    pub fn active(&self) -> (r: bool)
        ensures
            r == repo_active(*self),
    {
        !self.commits.is_empty() || self.dirty > 0 || self.ahead > 0
    }

    /// Checkouts carrying uncommitted or unpushed work, most interesting first:
    /// the busy checkouts, sorted by dirty files then unpushed commits, both
    /// descending, ties in the order they came in.
    pub fn busy_checkouts(&self) -> (out: Vec<&Checkout>)
        ensures
            out@.map_values(|c: &Checkout| *c) == stable_sort(self.checkouts@.filter(|c: Checkout| busy(c))),
    {
        let ghost pred = |c: Checkout| busy(c);
        let mut busy_ones: Vec<Checkout> = Vec::new();
        let mut spots: Vec<usize> = Vec::new();
        let mut i: usize = 0;
        while i < self.checkouts.len()
            invariant
                i <= self.checkouts.len(),
                pred == (|c: Checkout| busy(c)),
                busy_ones@ == self.checkouts@.take(i as int).filter(pred),
                spots.len() == busy_ones.len(),
                forall|k: int| 0 <= k < spots.len() ==> #[trigger] spots@[k] < i
                    && self.checkouts@[spots@[k] as int] == busy_ones@[k],
            decreases self.checkouts.len() - i,
        {
            let c = &self.checkouts[i];
            proof {
                let t = self.checkouts@.take(i + 1);
                assert(t.drop_last() =~= self.checkouts@.take(i as int));
                assert(t.last() == *c);
                assert(pred(*c) == (c.dirty > 0 || c.ahead > 0));
                reveal_with_fuel(Seq::<_>::filter, 1);
                assert(t.filter(pred) == if pred(*c) {
                    self.checkouts@.take(i as int).filter(pred).push(*c)
                } else {
                    self.checkouts@.take(i as int).filter(pred)
                });
            }
            let ghost before = busy_ones@;
            if c.dirty > 0 || c.ahead > 0 {
                let copy = c.clone();
                assert(copy == *c);
                busy_ones.push(copy);
                spots.push(i);
                assert(busy_ones@ == before.push(*c));
            }
            assert(busy_ones@ == self.checkouts@.take(i + 1).filter(pred));
            i = i + 1;
        }
        assert(self.checkouts@.take(self.checkouts.len() as int) =~= self.checkouts@);
        let order = stable_order(&busy_ones);
        let mut out: Vec<&Checkout> = Vec::new();
        let mut k: usize = 0;
        while k < order.len()
            invariant
                is_stable_order(busy_ones@, positions(order@)),
                reordered(busy_ones@, positions(order@)) == stable_sort(busy_ones@),
                busy_ones@ == self.checkouts@.filter(|c: Checkout| busy(c)),
                spots.len() == busy_ones.len(),
                forall|j: int| 0 <= j < spots.len() ==> #[trigger] spots@[j] < self.checkouts.len()
                    && self.checkouts@[spots@[j] as int] == busy_ones@[j],
                k <= order.len(),
                out.len() == k,
                forall|j: int| 0 <= j < k ==> *#[trigger] out@[j] == busy_ones@[order@[j] as int],
            decreases order.len() - k,
        {
            proof {
                assert(positions(order@)[k as int] == order@[k as int] as int);
            }
            let at = spots[order[k]];
            out.push(&self.checkouts[at]);
            k = k + 1;
        }
        assert(out@.map_values(|c: &Checkout| *c) =~= reordered(busy_ones@, positions(order@)));
        out
    }
}

/// A pull request.
#[derive(Debug)]
pub struct Pr {
    pub name: String,
    pub number: u64,
    pub title: String,
}

impl Replicate for Pr {
    fn replicate(&self) -> (r: Self) {
        Pr { name: self.name.clone(), number: self.number, title: self.title.clone() }
    }
}

impl Clone for Pr {
    fn clone(&self) -> (r: Self)
        ensures
            r == *self,
    {
        self.replicate()
    }
}

impl Default for Pr {
    fn default() -> (r: Self)
        ensures
            r.name@ == Seq::<char>::empty(),
            r.number == 0,
            r.title@ == Seq::<char>::empty(),
    {
        Pr { name: String::new(), number: 0, title: String::new() }
    }
}

/// Pull requests by relation to the user.
#[derive(Debug)]
pub struct Prs {
    pub mine: Vec<Pr>,
    pub review_requested: Vec<Pr>,
    pub merged_in_window: Vec<Pr>,
}

/// Pull requests as values.
pub struct PrsView {
    pub mine: Seq<Pr>,
    pub review_requested: Seq<Pr>,
    pub merged_in_window: Seq<Pr>,
}

impl View for Prs {
    type V = PrsView;

    open spec fn view(&self) -> PrsView {
        PrsView {
            mine: self.mine@,
            review_requested: self.review_requested@,
            merged_in_window: self.merged_in_window@,
        }
    }
}

impl Clone for Prs {
    fn clone(&self) -> (r: Self)
        ensures
            r@ == self@,
    {
        Prs {
            mine: replicate_all(&self.mine),
            review_requested: replicate_all(&self.review_requested),
            merged_in_window: replicate_all(&self.merged_in_window),
        }
    }
}

impl Default for Prs {
    fn default() -> (r: Self)
        ensures
            r.mine@ == Seq::<Pr>::empty(),
            r.review_requested@ == Seq::<Pr>::empty(),
            r.merged_in_window@ == Seq::<Pr>::empty(),
    {
        Prs { mine: Vec::new(), review_requested: Vec::new(), merged_in_window: Vec::new() }
    }
}

/// An agent session that ran in the window.
#[derive(Debug)]
pub struct Session {
    pub repo: String,
    pub title: String,
    pub unanswered: bool,
    pub session_id: String,
}

impl Replicate for Session {
    fn replicate(&self) -> (r: Self) {
        Session {
            repo: self.repo.clone(),
            title: self.title.clone(),
            unanswered: self.unanswered,
            session_id: self.session_id.clone(),
        }
    }
}

impl Clone for Session {
    fn clone(&self) -> (r: Self)
        ensures
            r == *self,
    {
        self.replicate()
    }
}

impl Default for Session {
    fn default() -> (r: Self)
        ensures
            r.repo@ == Seq::<char>::empty(),
            r.title@ == Seq::<char>::empty(),
            !r.unanswered,
            r.session_id@ == Seq::<char>::empty(),
    {
        Session { repo: String::new(), title: String::new(), unanswered: false, session_id: String::new() }
    }
}

/// A live agent, as the collector saw it.
#[derive(Debug)]
pub struct Agent {
    pub pane_id: String,
    pub status: String,
    pub title: String,
    pub agent: String,
}

impl Replicate for Agent {
    fn replicate(&self) -> (r: Self) {
        Agent {
            pane_id: self.pane_id.clone(),
            status: self.status.clone(),
            title: self.title.clone(),
            agent: self.agent.clone(),
        }
    }
}

impl Clone for Agent {
    fn clone(&self) -> (r: Self)
        ensures
            r == *self,
    {
        self.replicate()
    }
}

impl Default for Agent {
    fn default() -> (r: Self)
        ensures
            r.pane_id@ == Seq::<char>::empty(),
            r.status@ == Seq::<char>::empty(),
            r.title@ == Seq::<char>::empty(),
            r.agent@ == Seq::<char>::empty(),
    {
        Agent { pane_id: String::new(), status: String::new(), title: String::new(), agent: String::new() }
    }
}

/// One open loop: something waiting on the user.
#[derive(Debug)]
pub struct Item {
    pub severity: u8,
    pub kind: String,
    pub text: String,
    pub hint: String,
    /// Path or URL the item points at. `where` is a Rust keyword.
    pub where_: Option<String>,
}

impl Replicate for Item {
    fn replicate(&self) -> (r: Self) {
        Item {
            severity: self.severity,
            kind: self.kind.clone(),
            text: self.text.clone(),
            hint: self.hint.clone(),
            where_: match &self.where_ {
                Some(w) => Some(w.clone()),
                None => None,
            },
        }
    }
}

impl Clone for Item {
    fn clone(&self) -> (r: Self)
        ensures
            r == *self,
    {
        self.replicate()
    }
}

impl Default for Item {
    fn default() -> (r: Self)
        ensures
            r.severity == 0,
            r.kind@ == Seq::<char>::empty(),
            r.text@ == Seq::<char>::empty(),
            r.hint@ == Seq::<char>::empty(),
            r.where_ is None,
    {
        Item { severity: 0, kind: String::new(), text: String::new(), hint: String::new(), where_: None }
    }
}

/// Items sort by severity (loudest first), then kind, then text.
impl Ranked for Item {
    open spec fn rank_le(self, other: Self) -> bool {
        ||| self.severity < other.severity
        ||| self.severity == other.severity && text_lt(self.kind@, other.kind@)
        ||| self.severity == other.severity && self.kind@ == other.kind@ && !text_lt(
            other.text@,
            self.text@,
        )
    }

    proof fn rank_total(a: Self, b: Self) {
        lemma_text_lt_total(a.kind@, b.kind@);
        lemma_text_lt_total(a.text@, b.text@);
    }

    proof fn rank_transitive(a: Self, b: Self, c: Self) {
        lemma_text_lt_total(a.kind@, b.kind@);
        lemma_text_lt_total(b.kind@, c.kind@);
        lemma_text_lt_total(a.kind@, c.kind@);
        lemma_text_lt_total(a.text@, b.text@);
        lemma_text_lt_total(b.text@, c.text@);
        lemma_text_lt_total(a.text@, c.text@);
        if text_lt(a.kind@, b.kind@) && text_lt(b.kind@, c.kind@) {
            lemma_text_lt_transitive(a.kind@, b.kind@, c.kind@);
        }
        if text_lt(c.text@, b.text@) && text_lt(b.text@, a.text@) {
            lemma_text_lt_transitive(c.text@, b.text@, a.text@);
        }
        if a.severity == c.severity && a.kind@ == c.kind@ && text_lt(c.text@, a.text@) {
            if !text_lt(c.text@, b.text@) && b.text@ != c.text@ {
                lemma_text_lt_transitive(b.text@, c.text@, a.text@);
            }
        }
    }

}

impl RankCompare for Item {
    fn ranks_no_later(&self, other: &Self) -> (r: bool) {
        if self.severity != other.severity {
            return self.severity < other.severity;
        }
        match compare_text(self.kind.as_str(), other.kind.as_str()) {
            Precedence::Before => true,
            Precedence::After => false,
            Precedence::Same => match compare_text(self.text.as_str(), other.text.as_str()) {
                Precedence::After => false,
                _ => true,
            },
        }
    }
}

/// The whole collector document.
#[derive(Debug)]
pub struct Doc {
    pub schema: u32,
    pub generated_at: String,
    pub window: Window,
    pub totals: Totals,
    pub repos: Vec<Repo>,
    pub prs: Prs,
    pub sessions: Vec<Session>,
    pub agents: Vec<Agent>,
    pub attention: Vec<Item>,
    pub errors: Vec<String>,
    pub net: bool,
    pub from_cache: bool,
    pub cache_age_seconds: u64,
}

/// The document as values: every list as a sequence, repositories and pull
/// requests by their own views.
pub struct DocView {
    pub schema: u32,
    pub generated_at: String,
    pub window: Window,
    pub totals: Totals,
    pub repos: Seq<RepoView>,
    pub prs: PrsView,
    pub sessions: Seq<Session>,
    pub agents: Seq<Agent>,
    pub attention: Seq<Item>,
    pub errors: Seq<String>,
    pub net: bool,
    pub from_cache: bool,
    pub cache_age_seconds: u64,
}

impl View for Doc {
    type V = DocView;

    open spec fn view(&self) -> DocView {
        DocView {
            schema: self.schema,
            generated_at: self.generated_at,
            window: self.window,
            totals: self.totals,
            repos: self.repos@.map_values(|r: Repo| r@),
            prs: self.prs@,
            sessions: self.sessions@,
            agents: self.agents@,
            attention: self.attention@,
            errors: self.errors@,
            net: self.net,
            from_cache: self.from_cache,
            cache_age_seconds: self.cache_age_seconds,
        }
    }
}

/// Copy every repository, in order.
fn copy_repos(v: &Vec<Repo>) -> (out: Vec<Repo>)
    ensures
        out@.map_values(|r: Repo| r@) == v@.map_values(|r: Repo| r@),
{
    let mut out: Vec<Repo> = Vec::new();
    let mut i: usize = 0;
    while i < v.len()
        invariant
            i <= v.len(),
            out.len() == i,
            forall|k: int| 0 <= k < i ==> (#[trigger] out@[k])@ == v@[k]@,
        decreases v.len() - i,
    {
        out.push(v[i].clone());
        i = i + 1;
    }
    assert(out@.map_values(|r: Repo| r@) =~= v@.map_values(|r: Repo| r@));
    out
}

impl Clone for Doc {
    fn clone(&self) -> (r: Self)
        ensures
            r@ == self@,
    {
        Doc {
            schema: self.schema,
            generated_at: self.generated_at.clone(),
            window: self.window.clone(),
            totals: self.totals,
            repos: copy_repos(&self.repos),
            prs: self.prs.clone(),
            sessions: replicate_all(&self.sessions),
            agents: replicate_all(&self.agents),
            attention: replicate_all(&self.attention),
            errors: replicate_all(&self.errors),
            net: self.net,
            from_cache: self.from_cache,
            cache_age_seconds: self.cache_age_seconds,
        }
    }
}

impl Default for Doc {
    fn default() -> (r: Self)
        ensures
            r.schema == 0,
            r.generated_at@ == Seq::<char>::empty(),
            r.window.label@ == Seq::<char>::empty(),
            r.window.days_back == 0,
            r.window.source@ == Seq::<char>::empty(),
            r.totals == (Totals {
                commits: 0,
                repos_touched: 0,
                repos_scanned: 0,
                sessions: 0,
                prs_open: 0,
                prs_merged: 0,
                reviews_requested: 0,
                agents: 0,
                agents_blocked: 0,
                agents_done: 0,
            }),
            r.repos@ == Seq::<Repo>::empty(),
            r.prs.mine@ == Seq::<Pr>::empty(),
            r.prs.review_requested@ == Seq::<Pr>::empty(),
            r.prs.merged_in_window@ == Seq::<Pr>::empty(),
            r.sessions@ == Seq::<Session>::empty(),
            r.agents@ == Seq::<Agent>::empty(),
            r.attention@ == Seq::<Item>::empty(),
            r.errors@ == Seq::<String>::empty(),
            !r.net,
            !r.from_cache,
            r.cache_age_seconds == 0,
    {
        Doc {
            schema: 0,
            generated_at: String::new(),
            window: Window::default(),
            totals: Totals::default(),
            repos: Vec::new(),
            prs: Prs::default(),
            sessions: Vec::new(),
            agents: Vec::new(),
            attention: Vec::new(),
            errors: Vec::new(),
            net: false,
            from_cache: false,
            cache_age_seconds: 0,
        }
    }
}

/// An item is in the band at or above `max_severity` (lower number = louder).
pub open spec fn within_band(i: Item, max_severity: u8) -> bool {
    i.severity <= max_severity
}

impl Doc {
    /// Repositories that did anything, in document order.
    pub fn active_repos(&self) -> (out: Vec<&Repo>)
        ensures
            out@.map_values(|r: &Repo| *r) == self.repos@.filter(|r: Repo| repo_active(r)),
    {
        let ghost pred = |r: Repo| repo_active(r);
        let mut out: Vec<&Repo> = Vec::new();
        let mut i: usize = 0;
        while i < self.repos.len()
            invariant
                i <= self.repos.len(),
                pred == (|r: Repo| repo_active(r)),
                out@.map_values(|r: &Repo| *r) == self.repos@.take(i as int).filter(pred),
            decreases self.repos.len() - i,
        {
            let r = &self.repos[i];
            proof {
                let t = self.repos@.take(i + 1);
                assert(t.drop_last() =~= self.repos@.take(i as int));
                assert(t.last() == *r);
                assert(pred(*r) == repo_active(*r));
                reveal_with_fuel(Seq::<_>::filter, 1);
                assert(t.filter(pred) == if pred(*r) {
                    self.repos@.take(i as int).filter(pred).push(*r)
                } else {
                    self.repos@.take(i as int).filter(pred)
                });
            }
            let ghost before = out@;
            if r.active() {
                out.push(r);
                assert(out@.map_values(|r: &Repo| *r) =~= before.map_values(|r: &Repo| *r).push(*r));
            }
            i = i + 1;
        }
        assert(self.repos@.take(self.repos.len() as int) =~= self.repos@);
        out
    }

    /// Attention items at or above a severity band (lower number = louder), in
    /// document order.
    pub fn loops(&self, max_severity: u8) -> (out: Vec<&Item>)
        ensures
            out@.map_values(|i: &Item| *i) == self.attention@.filter(
                |i: Item| within_band(i, max_severity),
            ),
    {
        let ghost pred = |i: Item| within_band(i, max_severity);
        let mut out: Vec<&Item> = Vec::new();
        let mut i: usize = 0;
        while i < self.attention.len()
            invariant
                i <= self.attention.len(),
                pred == (|i: Item| within_band(i, max_severity)),
                out@.map_values(|i: &Item| *i) == self.attention@.take(i as int).filter(pred),
            decreases self.attention.len() - i,
        {
            let item = &self.attention[i];
            proof {
                let t = self.attention@.take(i + 1);
                assert(t.drop_last() =~= self.attention@.take(i as int));
                assert(t.last() == *item);
                assert(pred(*item) == (item.severity <= max_severity));
                reveal_with_fuel(Seq::<_>::filter, 1);
                assert(t.filter(pred) == if pred(*item) {
                    self.attention@.take(i as int).filter(pred).push(*item)
                } else {
                    self.attention@.take(i as int).filter(pred)
                });
            }
            let ghost before = out@;
            if item.severity <= max_severity {
                out.push(item);
                assert(out@.map_values(|i: &Item| *i) =~= before.map_values(|i: &Item| *i).push(*item));
            }
            i = i + 1;
        }
        assert(self.attention@.take(self.attention.len() as int) =~= self.attention@);
        out
    }

    /// How many attention items are at or above a severity band.
    pub fn loops_count(&self, max_severity: u8) -> (n: usize)
        ensures
            n == self.attention@.filter(|i: Item| within_band(i, max_severity)).len(),
    {
        let v = self.loops(max_severity);
        assert(v@.map_values(|i: &Item| *i).len() == v@.len());
        v.len()
    }
}

/// Attention bands. The numbers are the collector's: they are part of the
/// schema, and the briefing colours itself by the same ones.
#[derive(Debug, Clone, Copy, PartialEq, Eq, Structural)]
pub enum Severity {
    /// Stuck: cannot progress without a human.
    Blocked,
    /// Waiting on me to look at it.
    Waiting,
    /// Work in flight that will rot if left alone.
    Loose,
    /// Housekeeping.
    Tidy,
}

/// The band a severity number falls in. Zero would be louder than blocked,
/// which no band is; anything past housekeeping is housekeeping.
pub open spec fn band_of(n: u8) -> Severity {
    if n <= 1 {
        Severity::Blocked
    } else if n == 2 {
        Severity::Waiting
    } else if n == 3 {
        Severity::Loose
    } else {
        Severity::Tidy
    }
}

/// The two-column mark a band shows at the start of a row.
pub open spec fn mark_of(s: Severity) -> Seq<char> {
    match s {
        Severity::Blocked => "!!"@,
        Severity::Waiting => " !"@,
        Severity::Loose => " \u{b7}"@,
        Severity::Tidy => "  "@,
    }
}

impl Severity {
    /// The band for a collector severity number.
    pub fn parse(n: u8) -> (r: Severity)
        ensures
            r == band_of(n),
    {
        if n <= 1 {
            Severity::Blocked
        } else if n == 2 {
            Severity::Waiting
        } else if n == 3 {
            Severity::Loose
        } else {
            Severity::Tidy
        }
    }

    /// Two columns wide for every band, so the text starts on one column no
    /// matter what a row's severity is.
    pub fn mark(self) -> (r: &'static str)
        ensures
            r@ == mark_of(self),
            r@.len() == 2,
    {
        proof {
            reveal_strlit("!!");
            reveal_strlit(" !");
            reveal_strlit(" \u{b7}");
            reveal_strlit("  ");
        }
        match self {
            Severity::Blocked => "!!",
            Severity::Waiting => " !",
            Severity::Loose => " \u{b7}",
            Severity::Tidy => "  ",
        }
    }
}

/// A louder severity number never lands in a quieter band.
pub proof fn bands_are_monotone(a: u8, b: u8)
    requires
        a <= b,
    ensures
        band_rank(band_of(a)) <= band_rank(band_of(b)),
{
}

/// Position of a band from loudest to quietest.
pub open spec fn band_rank(s: Severity) -> int {
    match s {
        Severity::Blocked => 0,
        Severity::Waiting => 1,
        Severity::Loose => 2,
        Severity::Tidy => 3,
    }
}

// ---------------------------------------------------------------------------
// The collector
// ---------------------------------------------------------------------------

/// The extension `Path::extension` reports for a path, if any.
pub uninterp spec fn path_extension(path: Seq<char>) -> Option<Seq<char>>;

/// Calls `Path::extension`. Which part of a path is its extension (the last
/// component's text after its final dot, with dot-files and `..` excluded) is
/// std's rule; the contract only names the answer.
#[verifier::external_body]
fn extension_of(path: &str) -> (r: Option<String>)
    ensures
        match r {
            Some(e) => path_extension(path@) == Some(e@),
            None => path_extension(path@) is None,
        },
{
    std::path::Path::new(path).extension().map(|e| e.to_string_lossy().into_owned())
}

/// A path whose extension is `py` is run through the interpreter.
pub open spec fn runs_via_python(path: Seq<char>) -> bool {
    path_extension(path) == Some("py"@)
}

/// Where the collector script was found, and how to invoke it.
#[derive(Debug)]
pub struct Collector {
    path: String,
    /// A `.py` path is handed to `python3` rather than executed, so a checkout
    /// that lost the exec bit still works.
    via_python: bool,
}

impl Replicate for Collector {
    fn replicate(&self) -> (r: Self) {
        Collector { path: self.path.clone(), via_python: self.via_python }
    }
}

impl Clone for Collector {
    fn clone(&self) -> (r: Self)
        ensures
            r == *self,
    {
        self.replicate()
    }
}

/// The program and arguments a collection runs.
#[derive(Debug)]
pub struct CommandLine {
    pub program: String,
    pub args: Vec<String>,
}


impl Collector {
    /// The script's path.
    pub closed spec fn path_view(&self) -> Seq<char> {
        self.path@
    }

    /// Whether the script is run through `python3`.
    pub closed spec fn python_view(&self) -> bool {
        self.via_python
    }

    /// A collector for the script at `path`; a `.py` script goes through the
    /// interpreter.
    pub fn at(path: String) -> (c: Collector)
        ensures
            c.path_view() == path@,
            c.python_view() == runs_via_python(path@),
    {
        let ext = extension_of(path.as_str());
        let via_python = match ext {
            Some(e) => crate::text::same_text(e.as_str(), "py"),
            None => false,
        };
        Collector { path, via_python }
    }

    /// A collector that is never actually run, for tests that only need the
    /// surrounding state machine.
    pub fn for_test() -> (c: Collector)
        ensures
            c.path_view() == "/nonexistent/daybook-collect.py"@,
    {
        let p = String::from_str("/nonexistent/daybook-collect.py");
        Collector::at(p)
    }

    /// Whether this collector runs through `python3`.
    pub fn via_python(&self) -> (r: bool)
        ensures
            r == self.python_view(),
    {
        self.via_python
    }

    /// The resolved script path, for `--where`. Which of the several candidate
    /// locations won is the first thing worth knowing when a pane comes up empty.
    pub fn display(&self) -> (r: String)
        ensures
            r@ == self.path_view(),
    {
        self.path.clone()
    }

    /// What one collection runs: the script (through `python3` for a `.py`),
    /// then `--max-age <max_age>`, then, when `net` is off, `--no-net` and
    /// `--no-cache`. The cache is shared with the briefing, and a document
    /// with empty pull-request lists must never be what a briefing reads.
    pub fn command(&self, max_age: u64, net: bool) -> (cmd: CommandLine)
        ensures
            self.python_view() ==> cmd.program@ == "python3"@,
            !self.python_view() ==> cmd.program@ == self.path_view(),
            cmd.args@.len() == (if self.python_view() { 1int } else { 0int }) + 2 + (if net { 0int } else { 2int }),
            ({
                let base: int = if self.python_view() { 1 } else { 0 };
                &&& self.python_view() ==> cmd.args@[0]@ == self.path_view()
                &&& cmd.args@[base]@ == "--max-age"@
                &&& cmd.args@[base + 1]@ == crate::text::decimal_text(max_age as nat)
                &&& !net ==> cmd.args@[base + 2]@ == "--no-net"@ && cmd.args@[base + 3]@ == "--no-cache"@
            }),
    {
        let mut args: Vec<String> = Vec::new();
        let program = if self.via_python {
            args.push(self.path.clone());
            String::from_str("python3")
        } else {
            self.path.clone()
        };
        args.push(String::from_str("--max-age"));
        args.push(crate::text::decimal(max_age));
        if !net {
            args.push(String::from_str("--no-net"));
            args.push(String::from_str("--no-cache"));
        }
        CommandLine { program, args }
    }
}


/// Where the collector is looked for, most explicit first: the copy that
/// shipped beside the plugin binary (found from the binary's own location,
/// which no working directory can redirect), then the one linked into
/// `~/.local/bin`, then a checkout under `~/Projects`.
pub open spec fn collector_candidates(plugin_root: Option<Seq<char>>, home: Option<Seq<char>>) -> Seq<Seq<char>> {
    (match plugin_root {
        Some(r) => seq![crate::status::joined_path(r, "../../tools/daybook/daybook-collect.py"@)],
        None => Seq::empty(),
    }) + (match home {
        Some(h) => seq![
            crate::status::joined_path(h, ".local/bin/daybook-collect"@),
            crate::status::joined_path(h, "Projects/herdr-plugins/tools/daybook/daybook-collect.py"@),
        ],
        None => Seq::empty(),
    })
}

impl Collector {
    /// The paths to try, in order, given the plugin's root directory and
    /// `$HOME` when they are known. The first that exists wins.
    pub fn candidates(plugin_root: Option<&str>, home: Option<&str>) -> (out: Vec<String>)
        ensures
            out@.map_values(|s: String| s@) == collector_candidates(
                match plugin_root {
                    Some(r) => Some(r@),
                    None => None,
                },
                match home {
                    Some(h) => Some(h@),
                    None => None,
                },
            ),
    {
        let mut out: Vec<String> = Vec::new();
        match plugin_root {
            Some(r) => out.push(crate::status::join_path(r, "../../tools/daybook/daybook-collect.py")),
            None => {},
        }
        match home {
            Some(h) => {
                out.push(crate::status::join_path(h, ".local/bin/daybook-collect"));
                out.push(crate::status::join_path(h, "Projects/herdr-plugins/tools/daybook/daybook-collect.py"));
            },
            None => {},
        }
        assert(out@.map_values(|s: String| s@) =~= collector_candidates(
            match plugin_root {
                Some(r) => Some(r@),
                None => None,
            },
            match home {
                Some(h) => Some(h@),
                None => None,
            },
        ));
        out
    }
}


/// Why a collection failed, as the pane reports it: the script, its exit code
/// (`-1` when it was killed by a signal), and the last meaningful line it wrote
/// to stderr.
pub open spec fn failure_text(path: Seq<char>, code: Option<i32>, stderr: Seq<char>) -> Seq<char> {
    path + " exited "@ + crate::text::signed_decimal_text(
        match code {
            Some(c) => c as int,
            None => -1,
        },
    ) + ": "@ + crate::text::last_meaningful_line(stderr)
}

impl Collector {
    /// The message for a collection that exited unsuccessfully with `code`
    /// (none when a signal ended it) after writing `stderr`.
    pub fn failure_message(&self, code: Option<i32>, stderr: &str) -> (s: String)
        ensures
            s@ == failure_text(self.path_view(), code, stderr@),
    {
        let n: i64 = match code {
            Some(c) => c as i64,
            None => -1,
        };
        let mut s = self.path.clone();
        s.append(" exited ");
        s.append(crate::text::signed_decimal(n).as_str());
        s.append(": ");
        s.append(crate::text::first_line(stderr).as_str());
        s
    }
}


/// The checkouts carrying work, in the order they came in.
pub open spec fn busy_ones(checkouts: Seq<Checkout>) -> Seq<Checkout> {
    checkouts.filter(|c: Checkout| busy(c))
}

/// What `busy_checkouts` lists for these checkouts.
pub open spec fn busy_listing(checkouts: Seq<Checkout>) -> Seq<Checkout> {
    stable_sort(busy_ones(checkouts))
}

/// The busy checkouts are those with uncommitted files or unpushed commits:
/// each such checkout is listed as often as it occurs, and no other is.
pub proof fn busy_means_dirty_or_unpushed(checkouts: Seq<Checkout>, c: Checkout)
    ensures
        busy_listing(checkouts).to_multiset().count(c) == if c.dirty > 0 || c.ahead > 0 {
            checkouts.to_multiset().count(c)
        } else {
            0
        },
{
    crate::ordering::stable_sort_is_a_permutation(busy_ones(checkouts));
    crate::ordering::filter_keeps_exactly_what_passes(checkouts, |c: Checkout| busy(c), c);
}

/// The open loops at a band are the attention items whose severity number is
/// at most the band's, in document order: each such item as often as it
/// occurs, no other; and the repositories listed as active are those with a
/// commit, a dirty file or an unpushed commit, in document order.
pub proof fn shown_items_and_repos_are_the_ones_that_qualify(d: Doc, max_severity: u8, i: Item, r: Repo)
    ensures
        d.attention@.filter(|i: Item| within_band(i, max_severity)).to_multiset().count(i) == if i.severity
            <= max_severity {
            d.attention@.to_multiset().count(i)
        } else {
            0
        },
        d.repos@.filter(|r: Repo| repo_active(r)).to_multiset().count(r) == if r.commits@.len() > 0 || r.dirty > 0
            || r.ahead > 0 {
            d.repos@.to_multiset().count(r)
        } else {
            0
        },
{
    crate::ordering::filter_keeps_exactly_what_passes(d.attention@, |i: Item| within_band(i, max_severity), i);
    crate::ordering::filter_keeps_exactly_what_passes(d.repos@, |r: Repo| repo_active(r), r);
}

/// The busy checkouts, as `busy_checkouts` lists them, are exactly the busy
/// ones: each occurs as often as it does among the checkouts, none is clean,
/// the dirtiest come first and then the most unpushed, and ties keep the
/// order they came in (the listing follows a stable order of positions).
pub proof fn busy_checkouts_are_the_busy_ones(checkouts: Seq<Checkout>)
    ensures
        busy_listing(checkouts).to_multiset() == busy_ones(checkouts).to_multiset(),
        forall|i: int| 0 <= i < busy_listing(checkouts).len() ==> busy(#[trigger] busy_listing(checkouts)[i]),
        forall|i: int, j: int|
            0 <= i < j < busy_listing(checkouts).len() ==> {
                let a = #[trigger] busy_listing(checkouts)[i];
                let b = #[trigger] busy_listing(checkouts)[j];
                a.dirty > b.dirty || (a.dirty == b.dirty && a.ahead >= b.ahead)
            },
        exists|order: Seq<int>|
            is_stable_order(busy_ones(checkouts), order) && #[trigger] reordered(busy_ones(checkouts), order)
                == busy_listing(checkouts),
{
    broadcast use vstd::seq_lib::group_filter_ensures;
    let f = busy_ones(checkouts);
    crate::ordering::stable_sort_is_a_permutation(f);
    crate::ordering::stable_sort_is_sorted(f);
    crate::ordering::stable_sort_rearranges(f);
    crate::ordering::lemma_stable_sort_len(f);
    assert forall|i: int| 0 <= i < stable_sort(f).len() implies busy(#[trigger] stable_sort(f)[i]) by {
        assert(f.contains(stable_sort(f)[i]));
        let k = choose|k: int| 0 <= k < f.len() && f[k] == stable_sort(f)[i];
        assert(busy(f[k]));
    }
    assert forall|i: int, j: int| 0 <= i < j < busy_listing(checkouts).len() implies {
        let a = #[trigger] busy_listing(checkouts)[i];
        let b = #[trigger] busy_listing(checkouts)[j];
        a.dirty > b.dirty || (a.dirty == b.dirty && a.ahead >= b.ahead)
    } by {
        assert(stable_sort(f)[i].rank_le(stable_sort(f)[j]));
    }
}


/// How the search for the collector ended.
#[derive(Debug)]
pub enum Lookup {
    /// Use this collector.
    Found(Collector),
    /// `DAYBOOK_COLLECT` names this path, which does not exist.
    ExplicitMissing(String),
    /// No candidate exists: the bare name on `PATH` is the last resort.
    TryPath,
}

/// The first of `candidates`, from the `i`-th on, that exists.
pub open spec fn first_present_from(candidates: Seq<(String, bool)>, i: int) -> Option<int>
    decreases candidates.len() - i,
{
    if i < 0 || i >= candidates.len() {
        None
    } else if candidates[i].1 {
        Some(i)
    } else {
        first_present_from(candidates, i + 1)
    }
}

impl Collector {
    /// Decide where the collector is, most explicit source first. `explicit`
    /// is `DAYBOOK_COLLECT` with whether that path exists; `candidates` are
    /// the paths of `candidates` with whether each exists. An explicit path
    /// wins or fails on its own; otherwise the first existing candidate wins.
    pub fn lookup(explicit: Option<(String, bool)>, candidates: &[(String, bool)]) -> (r: Lookup)
        ensures
            match explicit {
                Some(e) => if e.1 {
                    r matches Lookup::Found(c) && c.path_view() == e.0@ && c.python_view() == runs_via_python(e.0@)
                } else {
                    r matches Lookup::ExplicitMissing(p) && p@ == e.0@
                },
                None => match first_present_from(candidates@, 0) {
                    Some(i) => r matches Lookup::Found(c) && c.path_view() == candidates@[i].0@
                        && c.python_view() == runs_via_python(candidates@[i].0@),
                    None => r is TryPath,
                },
            },
    {
        match explicit {
            Some(e) => {
                if e.1 {
                    Lookup::Found(Collector::at(e.0))
                } else {
                    Lookup::ExplicitMissing(e.0)
                }
            },
            None => {
                let mut i: usize = 0;
                while i < candidates.len()
                    invariant
                        explicit is None,
                        i <= candidates.len(),
                        first_present_from(candidates@, 0) == first_present_from(candidates@, i as int),
                    decreases candidates.len() - i,
                {
                    if candidates[i].1 {
                        assert(first_present_from(candidates@, i as int) == Some(i as int));
                        let path = candidates[i].0.clone();
                        assert(path@ == candidates@[i as int].0@);
                        return Lookup::Found(Collector::at(path));
                    }
                    i = i + 1;
                }
                Lookup::TryPath
            },
        }
    }
}

} // verus!
