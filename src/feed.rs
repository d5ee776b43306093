use vstd::prelude::*;

use crate::node::Node;

verus! {

/// The session feed's record of a pane.
pub struct PaneRecord {
    pub id: u32,
    pub title: String,
    pub is_plugin: bool,
    pub is_focused: bool,
}

/// The session feed's record of a tab, with the panes that it holds.
pub struct TabRecord {
    pub name: String,
    pub position: usize,
    pub active: bool,
    pub panes: Vec<PaneRecord>,
}

/// The session feed's record of a session, with its tabs.
pub struct SessionRecord {
    pub name: String,
    pub is_current_session: bool,
    pub tabs: Vec<TabRecord>,
}

/// The number of nodes that a tab record yields: itself and its panes.
pub open spec fn tab_size(t: TabRecord) -> int {
    1 + t.panes@.len() as int
}

pub open spec fn tabs_size(ts: Seq<TabRecord>) -> int
    decreases ts.len(),
{
    if ts.len() == 0 {
        0
    } else {
        tabs_size(ts.drop_last()) + tab_size(ts.last())
    }
}

/// The number of nodes that a session record yields.
pub open spec fn session_size(s: SessionRecord) -> int {
    1 + tabs_size(s.tabs@)
}

pub open spec fn sessions_size(ss: Seq<SessionRecord>) -> int
    decreases ss.len(),
{
    if ss.len() == 0 {
        0
    } else {
        sessions_size(ss.drop_last()) + session_size(ss.last())
    }
}

pub(crate) proof fn lemma_tabs_size_prefix(ts: Seq<TabRecord>, t: int)
    requires
        0 <= t <= ts.len(),
    ensures
        0 <= tabs_size(ts.take(t)) <= tabs_size(ts),
        t < ts.len() ==> tabs_size(ts.take(t + 1)) == tabs_size(ts.take(t)) + tab_size(ts[t]),
    decreases ts.len(),
{
    if t < ts.len() {
        assert(ts.take(t + 1).drop_last() =~= ts.take(t));
    }
    if ts.len() > 0 {
        if t == ts.len() {
            assert(ts.take(t) =~= ts);
            lemma_tabs_size_prefix(ts.drop_last(), t - 1);
        } else {
            assert(ts.take(t) =~= ts.drop_last().take(t));
            lemma_tabs_size_prefix(ts.drop_last(), t);
        }
    }
}

pub(crate) proof fn lemma_sessions_size_prefix(ss: Seq<SessionRecord>, i: int)
    requires
        0 <= i <= ss.len(),
    ensures
        0 <= sessions_size(ss.take(i)) <= sessions_size(ss),
        i < ss.len() ==> sessions_size(ss.take(i + 1)) == sessions_size(ss.take(i)) + session_size(ss[i]),
    decreases ss.len(),
{
    if i < ss.len() {
        assert(ss.take(i + 1).drop_last() =~= ss.take(i));
        lemma_tabs_size_prefix(ss[i].tabs@, ss[i].tabs@.len() as int);
    }
    if ss.len() > 0 {
        lemma_tabs_size_prefix(ss.last().tabs@, ss.last().tabs@.len() as int);
        if i == ss.len() {
            assert(ss.take(i) =~= ss);
            lemma_sessions_size_prefix(ss.drop_last(), i - 1);
        } else {
            assert(ss.take(i) =~= ss.drop_last().take(i));
            lemma_sessions_size_prefix(ss.drop_last(), i);
        }
    }
}

/// Where the node of tab `t` goes, for a session whose node stands at `s`.
pub open spec fn tab_start(s: int, tabs: Seq<TabRecord>, t: int) -> int {
    s + 1 + tabs_size(tabs.take(t))
}

/// `node` is the pane made from `rec`, in the tab at `tp`.
pub open spec fn pane_built(node: Node, rec: PaneRecord, tp: int) -> bool {
    match node {
        Node::Pane(x) => x.title@ == rec.title@ && x.pane_id == (rec.id, rec.is_plugin) && x.is_focused
            == rec.is_focused && x.tab == tp,
        _ => false,
    }
}

/// The tab made from `rec` stands at `tp`, in the session at `s`, and its
/// panes follow it in order.
pub open spec fn tab_built(nodes: Seq<Node>, rec: TabRecord, s: int, tp: int) -> bool {
    &&& match nodes[tp] {
        Node::Tab(x) => x.name@ == rec.name@ && x.position == rec.position && x.active == rec.active && x.session
            == s,
        _ => false,
    }
    &&& forall|p: int| 0 <= p < rec.panes@.len() ==> pane_built(#[trigger] nodes[tp + 1 + p], rec.panes@[p], tp)
}

/// The session made from `rec` stands at `s`, and its tabs follow it in
/// order, each followed by its panes.
pub open spec fn session_built(nodes: Seq<Node>, rec: SessionRecord, s: int) -> bool {
    &&& match nodes[s] {
        Node::Session(x) => x.name@ == rec.name@ && x.is_current_session == rec.is_current_session,
        _ => false,
    }
    &&& forall|t: int| 0 <= t < rec.tabs@.len() ==> #[trigger] tab_built(nodes, rec.tabs@[t], s, tab_start(s, rec.tabs@, t))
}

/// The nodes hold the session records in depth-first order.
pub open spec fn built_from(nodes: Seq<Node>, ss: Seq<SessionRecord>) -> bool {
    forall|i: int| 0 <= i < ss.len() ==> #[trigger] session_built(nodes, ss[i], sessions_size(ss.take(i)))
}

pub(crate) proof fn lemma_tabs_size_mono(ts: Seq<TabRecord>, a: int, b: int)
    requires
        0 <= a <= b <= ts.len(),
    ensures
        tabs_size(ts.take(a)) <= tabs_size(ts.take(b)),
    decreases b - a,
{
    if a < b {
        lemma_tabs_size_mono(ts, a, b - 1);
        lemma_tabs_size_prefix(ts, b - 1);
    }
}

pub(crate) proof fn lemma_sessions_size_mono(ss: Seq<SessionRecord>, a: int, b: int)
    requires
        0 <= a <= b <= ss.len(),
    ensures
        sessions_size(ss.take(a)) <= sessions_size(ss.take(b)),
    decreases b - a,
{
    if a < b {
        lemma_sessions_size_mono(ss, a, b - 1);
        lemma_sessions_size_prefix(ss, b - 1);
        lemma_tabs_size_prefix(ss[b - 1].tabs@, ss[b - 1].tabs@.len() as int);
    }
}

pub(crate) proof fn lemma_tab_built_prefix(a: Seq<Node>, b: Seq<Node>, rec: TabRecord, s: int, tp: int)
    requires
        tab_built(a, rec, s, tp),
        0 <= tp,
        tp + tab_size(rec) <= a.len() <= b.len(),
        forall|k: int| 0 <= k < a.len() ==> a[k] == b[k],
    ensures
        tab_built(b, rec, s, tp),
{
    assert forall|p: int| 0 <= p < rec.panes@.len() implies pane_built(#[trigger] b[tp + 1 + p], rec.panes@[p], tp) by {
        assert(pane_built(a[tp + 1 + p], rec.panes@[p], tp));
    }
}

pub(crate) proof fn lemma_session_built_prefix(a: Seq<Node>, b: Seq<Node>, rec: SessionRecord, s: int)
    requires
        session_built(a, rec, s),
        0 <= s,
        s + session_size(rec) <= a.len() <= b.len(),
        forall|k: int| 0 <= k < a.len() ==> a[k] == b[k],
    ensures
        session_built(b, rec, s),
{
    let tabs = rec.tabs@;
    lemma_tabs_size_prefix(tabs, tabs.len() as int);
    assert(a[s] == b[s]);
    assert forall|t: int| 0 <= t < tabs.len() implies #[trigger] tab_built(b, tabs[t], s, tab_start(s, tabs, t)) by {
        lemma_tabs_size_prefix(tabs, t);
        lemma_tabs_size_mono(tabs, t + 1, tabs.len() as int);
        assert(tabs.take(tabs.len() as int) =~= tabs);
        assert(tab_built(a, tabs[t], s, tab_start(s, tabs, t)));
        lemma_tab_built_prefix(a, b, tabs[t], s, tab_start(s, tabs, t));
    }
}

} // verus!
