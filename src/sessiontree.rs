use vstd::prelude::*;

use crate::node::{result_view, Action, ActionModel, Node, Pane, Row, Session, Tab, TreeError};
use crate::feed::{
    built_from, lemma_session_built_prefix, lemma_sessions_size_mono, lemma_sessions_size_prefix, lemma_tab_built_prefix,
    lemma_tabs_size_mono, lemma_tabs_size_prefix, pane_built, session_built, session_size, sessions_size, tab_built,
    tab_size, tab_start, tabs_size, SessionRecord, TabRecord,
};
use crate::utils::{keybind_of, IdGenerator, KeybindGenerator};

verus! {

/// The tree of sessions, tabs and panes, kept as one flat list in
/// depth-first order, with a cursor and the quick-select table of the last
/// render.
pub struct SessionTree {
    nodes: Vec<Node>,
    cursor: usize,
    quick_find: Vec<usize>,
}

/// The session that node `j` belongs to (itself, for a session).
pub open spec fn session_of(nodes: Seq<Node>, j: int) -> int {
    match nodes[j] {
        Node::Session(_) => j,
        Node::Tab(t) => t.session as int,
        Node::Pane(p) => match nodes[p.tab as int] {
            Node::Tab(t) => t.session as int,
            _ => p.tab as int,
        },
    }
}

/// Handles, parent links and variants fit together: a tab's parent is an
/// earlier session, a pane's an earlier tab.
pub open spec fn links_ok(nodes: Seq<Node>, j: int) -> bool {
    &&& nodes[j].spec_index() == j
    &&& match nodes[j] {
        Node::Session(_) => true,
        Node::Tab(t) => t.session < j && nodes[t.session as int] is Session,
        Node::Pane(p) => p.tab < j && nodes[p.tab as int] is Tab,
    }
}

/// Node `j + 1` follows node `j` in depth-first order: a new session, a tab
/// of the session of `j`, or a pane of `j` or of the tab of `j`.
pub open spec fn follows(nodes: Seq<Node>, j: int) -> bool {
    match nodes[j + 1] {
        Node::Session(_) => true,
        Node::Tab(t) => t.session == session_of(nodes, j),
        Node::Pane(p) => p.tab == j || (nodes[j] is Pane && nodes[j].spec_parent() == Some(p.tab)),
    }
}

/// A tab is shown exactly when its session is expanded, and only a shown tab
/// is expanded; a pane is shown exactly when its tab is expanded.
pub open spec fn visibility_ok(nodes: Seq<Node>, j: int) -> bool {
    match nodes[j] {
        Node::Session(_) => true,
        Node::Tab(t) => t.shown == nodes[t.session as int].spec_expanded() && (t.is_expanded ==> t.shown),
        Node::Pane(p) => p.shown == nodes[p.tab as int].spec_expanded(),
    }
}

pub open spec fn structure_ok(nodes: Seq<Node>) -> bool {
    &&& nodes.len() > 0 ==> nodes[0] is Session
    &&& forall|j: int| 0 <= j < nodes.len() ==> #[trigger] links_ok(nodes, j)
    &&& forall|j: int| 0 <= j < nodes.len() - 1 ==> #[trigger] follows(nodes, j)
}

pub open spec fn nodes_ok(nodes: Seq<Node>) -> bool {
    &&& structure_ok(nodes)
    &&& forall|j: int| 0 <= j < nodes.len() ==> #[trigger] visibility_ok(nodes, j)
}

/// The nodes after `x` is expanded: `x` is marked expanded and its direct
/// children are shown; an expanded node is left as it is.
pub open spec fn expand_spec(nodes: Seq<Node>, x: int) -> Seq<Node> {
    if nodes[x].spec_expanded() {
        nodes
    } else {
        Seq::new(
            nodes.len(),
            |j: int|
                if j == x {
                    nodes[j].with_expanded(true)
                } else if nodes[j].spec_parent() == Some(x as usize) {
                    nodes[j].with_shown(true)
                } else {
                    nodes[j]
                },
        )
    }
}

/// Whether node `j` is a pane of an expanded tab of `x`.
pub open spec fn under_expanded_child(nodes: Seq<Node>, x: int, j: int) -> bool {
    match nodes[j].spec_parent() {
        Some(t) => nodes[t as int].spec_parent() == Some(x as usize) && nodes[t as int].spec_expanded(),
        None => false,
    }
}

/// The nodes after `x` is collapsed: `x` is marked collapsed, each direct
/// child is collapsed and hidden, and the panes of the children that were
/// expanded are hidden. A collapsed node, and a pane, are left as they are.
pub open spec fn collapse_spec(nodes: Seq<Node>, x: int) -> Seq<Node> {
    if !nodes[x].spec_expanded() || nodes[x] is Pane {
        nodes
    } else {
        Seq::new(
            nodes.len(),
            |j: int|
                if j == x {
                    nodes[j].with_expanded(false)
                } else if nodes[j].spec_parent() == Some(x as usize) {
                    nodes[j].with_expanded(false).with_shown(false)
                } else if under_expanded_child(nodes, x, j) {
                    nodes[j].with_shown(false)
                } else {
                    nodes[j]
                },
        )
    }
}

/// Two nodes of the same variant with the same handle and parent: they
/// differ at most in their visibility and expansion flags.
pub open spec fn same_shape(a: Node, b: Node) -> bool {
    &&& a.spec_index() == b.spec_index()
    &&& a.spec_parent() == b.spec_parent()
    &&& (a is Session <==> b is Session)
    &&& (a is Tab <==> b is Tab)
    &&& (a is Pane <==> b is Pane)
}

proof fn lemma_same_shape_structure(a: Seq<Node>, b: Seq<Node>)
    requires
        structure_ok(a),
        a.len() == b.len(),
        forall|j: int| 0 <= j < a.len() ==> same_shape(#[trigger] a[j], b[j]),
    ensures
        structure_ok(b),
{
    assert forall|j: int| 0 <= j < b.len() implies #[trigger] links_ok(b, j) by {
        assert(links_ok(a, j));
        assert(same_shape(a[j], b[j]));
        match a[j] {
            Node::Tab(t) => assert(same_shape(a[t.session as int], b[t.session as int])),
            Node::Pane(p) => assert(same_shape(a[p.tab as int], b[p.tab as int])),
            _ => {},
        }
    }
    assert forall|j: int| 0 <= j < b.len() - 1 implies #[trigger] follows(b, j) by {
        assert(follows(a, j));
        assert(links_ok(a, j));
        assert(same_shape(a[j], b[j]));
        assert(same_shape(a[j + 1], b[j + 1]));
        match a[j] {
            Node::Pane(p) => assert(same_shape(a[p.tab as int], b[p.tab as int])),
            _ => {},
        }
    }
}

/// Every entry of a quick-select table is the handle of a node.
pub open spec fn table_ok(table: Seq<usize>, n: nat) -> bool {
    forall|k: int| 0 <= k < table.len() ==> #[trigger] table[k] < n
}

/// How many steps down, wrapping, lead from `a` to `b` on `n` rows.
pub open spec fn dist(a: int, b: int, n: int) -> int {
    if b >= a {
        b - a
    } else {
        b - a + n
    }
}

/// Like `dist`, but a full turn when `a == b`.
pub open spec fn gap(a: int, b: int, n: int) -> int {
    if a == b {
        n
    } else {
        dist(a, b, n)
    }
}

/// `r` is the first shown node below `c`, wrapping at the end: every node
/// strictly between them is hidden (`r == c` when `c` is the only one).
pub open spec fn step_down(nodes: Seq<Node>, c: int, r: int) -> bool {
    &&& 0 <= r < nodes.len()
    &&& nodes[r].spec_shown()
    &&& forall|k: int|
        0 <= k < nodes.len() && 0 < dist(c, k, nodes.len() as int) < gap(c, r, nodes.len() as int)
            ==> !(#[trigger] nodes[k]).spec_shown()
}

/// `r` is the first shown node above `c`, wrapping at the start.
pub open spec fn step_up(nodes: Seq<Node>, c: int, r: int) -> bool {
    &&& 0 <= r < nodes.len()
    &&& nodes[r].spec_shown()
    &&& forall|k: int|
        0 <= k < nodes.len() && 0 < dist(k, c, nodes.len() as int) < gap(r, c, nodes.len() as int)
            ==> !(#[trigger] nodes[k]).spec_shown()
}

/// `r` is the nearest shown node above `c`, or `0` when `c` is `0`.
pub open spec fn step_back(nodes: Seq<Node>, c: int, r: int) -> bool {
    &&& c == 0 ==> r == 0
    &&& c > 0 ==> 0 <= r < c && nodes[r].spec_shown() && forall|k: int| r < k < c ==> !(#[trigger] nodes[k]).spec_shown()
}

/// Below a shown, expanded node the next node is shown.
proof fn lemma_next_is_shown(nodes: Seq<Node>, c: int)
    requires
        nodes_ok(nodes),
        0 <= c < nodes.len() - 1,
        nodes[c].spec_shown(),
        nodes[c].spec_expanded(),
    ensures
        nodes[c + 1].spec_shown(),
{
    assert(follows(nodes, c));
    assert(links_ok(nodes, c));
    assert(links_ok(nodes, c + 1));
    assert(visibility_ok(nodes, c));
    assert(visibility_ok(nodes, c + 1));
    match nodes[c] {
        Node::Pane(pc) => {
            assert(links_ok(nodes, pc.tab as int));
            assert(visibility_ok(nodes, pc.tab as int));
        },
        _ => {},
    }
}

/// What focusing node `j` asks of the host.
pub open spec fn focus_spec(nodes: Seq<Node>, j: int) -> Result<ActionModel, TreeError> {
    match nodes[j] {
        Node::Session(s) => if s.is_current_session {
            Err(TreeError::CurrentSession)
        } else {
            Ok(ActionModel::SwitchSession(s.name@))
        },
        Node::Tab(t) => match nodes[t.session as int] {
            Node::Session(s) => if s.is_current_session {
                Ok(ActionModel::FocusOrCreateTab(t.name@))
            } else {
                Ok(ActionModel::SwitchSessionWithFocus(s.name@, t.position, None))
            },
            _ => Err(TreeError::MissingParent),
        },
        Node::Pane(p) => match nodes[p.tab as int] {
            Node::Tab(t) => match nodes[t.session as int] {
                Node::Session(s) => if s.is_current_session {
                    Ok(ActionModel::FocusTerminalPane(p.pane_id.0))
                } else {
                    Ok(ActionModel::SwitchSessionWithFocus(s.name@, t.position, Some(p.pane_id)))
                },
                _ => Err(TreeError::MissingParent),
            },
            _ => Err(TreeError::MissingParent),
        },
    }
}

/// The handles of the shown nodes among the first `k`, in order.
pub open spec fn shown_prefix(nodes: Seq<Node>, k: int) -> Seq<usize>
    decreases k,
{
    if k <= 0 {
        Seq::empty()
    } else if nodes[k - 1].spec_shown() {
        shown_prefix(nodes, k - 1).push((k - 1) as usize)
    } else {
        shown_prefix(nodes, k - 1)
    }
}

/// The handles of the shown nodes, one per visible row, in order.
pub open spec fn shown_rows(nodes: Seq<Node>) -> Seq<usize> {
    shown_prefix(nodes, nodes.len() as int)
}

/// The first visible row that a viewport of `rows` rows shows: the cursor's
/// row centred where possible, without scrolling past either end.
pub open spec fn window_start(total: int, cursor_row: int, rows: int) -> int {
    let half = if rows > 0 { (rows - 1) / 2 } else { 0 };
    let centred = if cursor_row > half { cursor_row - half } else { 0 };
    let last = if total > rows { total - rows } else { 0 };
    if centred < last { centred } else { last }
}

/// Each entry of `shown_prefix(nodes, k)` is a shown node below `k`, and
/// the entries increase.
pub proof fn lemma_shown_prefix(nodes: Seq<Node>, k: int)
    requires
        0 <= k <= nodes.len() <= usize::MAX,
    ensures
        shown_prefix(nodes, k).len() <= k,
        forall|m: int| 0 <= m < shown_prefix(nodes, k).len() ==> #[trigger] shown_prefix(nodes, k)[m] < k
            && nodes[shown_prefix(nodes, k)[m] as int].spec_shown(),
        forall|m: int, q: int| 0 <= m < q < shown_prefix(nodes, k).len()
            ==> #[trigger] shown_prefix(nodes, k)[m] < #[trigger] shown_prefix(nodes, k)[q],
    decreases k,
{
    if k > 0 {
        lemma_shown_prefix(nodes, k - 1);
        let prev = shown_prefix(nodes, k - 1);
        let cur = shown_prefix(nodes, k);
        if nodes[k - 1].spec_shown() {
            assert(cur == prev.push((k - 1) as usize));
            assert forall|m: int| 0 <= m < cur.len() implies #[trigger] cur[m] < k && nodes[cur[m] as int].spec_shown() by {
                if m < prev.len() {
                    assert(cur[m] == prev[m]);
                }
            }
            assert forall|m: int, q: int| 0 <= m < q < cur.len() implies #[trigger] cur[m] < #[trigger] cur[q] by {
                assert(cur[m] == prev[m]);
                if q < prev.len() {
                    assert(cur[q] == prev[q]);
                }
            }
        } else {
            assert(cur == prev);
        }
    }
}

/// A node as a new tree holds it: a session collapsed, a tab or a pane
/// hidden and collapsed.
pub open spec fn is_fresh(n: Node) -> bool {
    match n {
        Node::Session(s) => !s.is_expanded,
        Node::Tab(t) => !t.shown && !t.is_expanded,
        Node::Pane(p) => !p.shown,
    }
}

pub open spec fn all_fresh(nodes: Seq<Node>) -> bool {
    forall|j: int| 0 <= j < nodes.len() ==> is_fresh(#[trigger] nodes[j])
}

proof fn lemma_push_node(nodes: Seq<Node>, node: Node)
    requires
        structure_ok(nodes),
        all_fresh(nodes),
        is_fresh(node),
        links_ok(nodes.push(node), nodes.len() as int),
        nodes.len() == 0 ==> node is Session,
        nodes.len() > 0 ==> follows(nodes.push(node), nodes.len() - 1),
    ensures
        structure_ok(nodes.push(node)),
        all_fresh(nodes.push(node)),
{
    let m = nodes.push(node);
    assert forall|j: int| 0 <= j < m.len() implies #[trigger] links_ok(m, j) by {
        if j < nodes.len() {
            assert(links_ok(nodes, j));
        }
    }
    assert forall|j: int| 0 <= j < m.len() - 1 implies #[trigger] follows(m, j) by {
        if j < nodes.len() - 1 {
            assert(follows(nodes, j));
            assert(links_ok(nodes, j));
        }
    }
    assert forall|j: int| 0 <= j < m.len() implies is_fresh(#[trigger] m[j]) by {
        if j < nodes.len() {
            assert(is_fresh(nodes[j]));
        }
    }
}

proof fn lemma_fresh_visibility(nodes: Seq<Node>)
    requires
        structure_ok(nodes),
        all_fresh(nodes),
    ensures
        nodes_ok(nodes),
{
    assert forall|j: int| 0 <= j < nodes.len() implies #[trigger] visibility_ok(nodes, j) by {
        assert(links_ok(nodes, j));
        assert(is_fresh(nodes[j]));
        match nodes[j] {
            Node::Tab(t) => assert(is_fresh(nodes[t.session as int])),
            Node::Pane(p) => assert(is_fresh(nodes[p.tab as int])),
            _ => {},
        }
    }
}

impl SessionTree {
    pub closed spec fn nodes(&self) -> Seq<Node> {
        self.nodes@
    }

    pub closed spec fn cursor(&self) -> int {
        self.cursor as int
    }

    /// The quick-select table: the handle of the node on each visible row.
    pub closed spec fn quick_find(&self) -> Seq<usize> {
        self.quick_find@
    }

    pub open spec fn wf(&self) -> bool {
        &&& nodes_ok(self.nodes())
        &&& self.nodes().len() <= usize::MAX
        &&& self.nodes().len() == 0 ==> self.cursor() == 0
        &&& self.nodes().len() > 0 ==> 0 <= self.cursor() < self.nodes().len()
            && self.nodes()[self.cursor()].spec_shown()
        &&& table_ok(self.quick_find(), self.nodes().len())
    }

    pub fn get_node(&self, index: usize) -> (r: Result<&Node, TreeError>)
        ensures
            index < self.nodes().len() ==> (r matches Ok(n) && *n == self.nodes()[index as int]),
            index >= self.nodes().len() ==> r == Err::<&Node, TreeError>(TreeError::IndexOutOfRange),
    {
        if index < self.nodes.len() {
            Ok(&self.nodes[index])
        } else {
            Err(TreeError::IndexOutOfRange)
        }
    }

    pub fn get_current_node(&self) -> (r: Result<&Node, TreeError>)
        ensures
            self.cursor() < self.nodes().len() ==> (r matches Ok(n) && *n == self.nodes()[self.cursor()]),
            self.cursor() >= self.nodes().len() ==> r == Err::<&Node, TreeError>(TreeError::CursorOutOfRange),
    {
        if self.cursor < self.nodes.len() {
            Ok(&self.nodes[self.cursor])
        } else {
            Err(TreeError::CursorOutOfRange)
        }
    }

    /// The parent of node `index`, or the node itself when it is a session.
    pub fn get_parent(&self, index: usize) -> (r: Result<&Node, TreeError>)
        requires
            self.wf(),
        ensures
            index < self.nodes().len() ==> (r matches Ok(n) && *n == match self.nodes()[index as int].spec_parent() {
                Some(p) => self.nodes()[p as int],
                None => self.nodes()[index as int],
            }),
            index >= self.nodes().len() ==> r == Err::<&Node, TreeError>(TreeError::IndexOutOfRange),
    {
        if index >= self.nodes.len() {
            return Err(TreeError::IndexOutOfRange);
        }
        proof {
            assert(links_ok(self.nodes@, index as int));
        }
        match self.nodes[index].parent() {
            Some(p) => Ok(&self.nodes[p]),
            None => Ok(&self.nodes[index]),
        }
    }

    /// The handle of the session that node `index` belongs to.
    fn session_index(&self, index: usize) -> (r: usize)
        requires
            self.wf(),
            index < self.nodes().len(),
        ensures
            r == session_of(self.nodes(), index as int),
            r < self.nodes().len(),
            self.nodes()[r as int] is Session,
    {
        proof {
            assert(links_ok(self.nodes@, index as int));
        }
        match &self.nodes[index] {
            Node::Session(_) => index,
            Node::Tab(t) => t.session,
            Node::Pane(p) => {
                proof {
                    assert(links_ok(self.nodes@, p.tab as int));
                }
                match &self.nodes[p.tab] {
                    Node::Tab(t) => t.session,
                    _ => p.tab,
                }
            },
        }
    }

    /// The session that node `index` belongs to.
    pub fn get_session(&self, index: usize) -> (r: Result<&Node, TreeError>)
        requires
            self.wf(),
        ensures
            index < self.nodes().len() ==> (r matches Ok(n) && *n == self.nodes()[session_of(self.nodes(), index as int)]
                && *n is Session),
            index >= self.nodes().len() ==> r == Err::<&Node, TreeError>(TreeError::IndexOutOfRange),
    {
        if index >= self.nodes.len() {
            return Err(TreeError::IndexOutOfRange);
        }
        let s = self.session_index(index);
        Ok(&self.nodes[s])
    }
    /// Expands node `index` when it is shown: its children are shown.
    pub fn expand(&mut self, index: usize) -> (r: Result<(), TreeError>)
        requires
            old(self).wf(),
        ensures
            final(self).wf(),
            final(self).cursor() == old(self).cursor(),
            final(self).quick_find() == old(self).quick_find(),
            index >= old(self).nodes().len() ==> r == Err::<(), TreeError>(TreeError::IndexOutOfRange)
                && final(self).nodes() == old(self).nodes(),
            index < old(self).nodes().len() && !old(self).nodes()[index as int].spec_shown() ==> r
                == Err::<(), TreeError>(TreeError::NodeHidden) && final(self).nodes() == old(self).nodes(),
            index < old(self).nodes().len() && old(self).nodes()[index as int].spec_shown() ==> r is Ok
                && final(self).nodes() == expand_spec(old(self).nodes(), index as int),
    {
        if index >= self.nodes.len() {
            return Err(TreeError::IndexOutOfRange);
        }
        if !self.nodes[index].is_shown() {
            return Err(TreeError::NodeHidden);
        }
        if self.nodes[index].is_expanded() {
            return Ok(());
        }
        let ghost before = self.nodes@;
        let ghost target = expand_spec(before, index as int);
        let n = self.nodes.len();
        let mut j: usize = 0;
        while j < n
            invariant
                n == self.nodes@.len(),
                n == before.len(),
                index < n,
                !before[index as int].spec_expanded(),
                before[index as int].spec_shown(),
                nodes_ok(before),
                target == expand_spec(before, index as int),
                self.cursor == old(self).cursor,
                self.quick_find == old(self).quick_find,
                0 <= j <= n,
                forall|k: int| 0 <= k < j && k != index ==> self.nodes@[k] == target[k],
                forall|k: int| j <= k < n ==> self.nodes@[k] == before[k],
                j > index ==> self.nodes@[index as int] == before[index as int],
            decreases n - j,
        {
            proof {
                assert(links_ok(before, j as int));
            }
            let is_child = match self.nodes[j].parent() {
                Some(p) => p == index,
                None => false,
            };
            if is_child {
                self.nodes[j].show();
            }
            j = j + 1;
        }
        self.nodes[index].set_expanded(true);
        proof {
            assert(self.nodes@ =~= target);
            assert forall|k: int| 0 <= k < n implies same_shape(#[trigger] before[k], target[k]) by {}
            lemma_same_shape_structure(before, target);
            assert forall|k: int| 0 <= k < n implies #[trigger] visibility_ok(target, k) by {
                assert(visibility_ok(before, k));
                assert(links_ok(before, k));
            }
            assert(target[self.cursor as int].spec_shown());
        }
        Ok(())
    }

    /// Collapses node `x`: see `collapse_spec`.
    fn collapse_node(&mut self, x: usize)
        requires
            nodes_ok(old(self).nodes()),
            x < old(self).nodes().len(),
        ensures
            nodes_ok(final(self).nodes()),
            final(self).nodes() == collapse_spec(old(self).nodes(), x as int),
            final(self).cursor() == old(self).cursor(),
            final(self).quick_find() == old(self).quick_find(),
    {
        if !self.nodes[x].is_expanded() {
            return;
        }
        if let Node::Pane(_) = &self.nodes[x] {
            return;
        }
        let ghost before = self.nodes@;
        let ghost target = collapse_spec(before, x as int);
        let n = self.nodes.len();
        let mut j: usize = n;
        while j > 0
            invariant
                n == self.nodes@.len(),
                n == before.len(),
                x < n,
                structure_ok(before),
                before[x as int].spec_expanded(),
                !(before[x as int] is Pane),
                target == collapse_spec(before, x as int),
                self.cursor == old(self).cursor,
                self.quick_find == old(self).quick_find,
                0 <= j <= n,
                forall|k: int| 0 <= k < j ==> self.nodes@[k] == before[k],
                forall|k: int| j <= k < n && k != x ==> self.nodes@[k] == target[k],
                j <= x ==> self.nodes@[x as int] == before[x as int],
            decreases j,
        {
            j = j - 1;
            proof {
                assert(links_ok(before, j as int));
            }
            match self.nodes[j].parent() {
                Some(p) => {
                    if p == x {
                        self.nodes[j].set_expanded(false);
                        self.nodes[j].conceal();
                    } else {
                        proof {
                            assert(links_ok(before, p as int));
                        }
                        let grand = match self.nodes[p].parent() {
                            Some(g) => g == x && self.nodes[p].is_expanded(),
                            None => false,
                        };
                        if grand {
                            self.nodes[j].conceal();
                        }
                    }
                },
                None => {},
            }
        }
        self.nodes[x].set_expanded(false);
        proof {
            assert(self.nodes@ =~= target);
            assert forall|k: int| 0 <= k < n implies same_shape(#[trigger] before[k], target[k]) by {}
            lemma_same_shape_structure(before, target);
            assert forall|k: int| 0 <= k < n implies #[trigger] visibility_ok(target, k) by {
                assert(visibility_ok(before, k));
                assert(links_ok(before, k));
                match before[k] {
                    Node::Pane(pn) => {
                        assert(links_ok(before, pn.tab as int));
                        assert(visibility_ok(before, pn.tab as int));
                    },
                    _ => {},
                }
            }
        }
    }

    /// Collapses the session of node `index` and puts the cursor on it.
    pub fn collapse(&mut self, index: usize) -> (r: Result<(), TreeError>)
        requires
            old(self).wf(),
        ensures
            final(self).wf(),
            final(self).quick_find() == old(self).quick_find(),
            index >= old(self).nodes().len() ==> r == Err::<(), TreeError>(TreeError::IndexOutOfRange)
                && final(self).nodes() == old(self).nodes() && final(self).cursor() == old(self).cursor(),
            index < old(self).nodes().len() ==> r is Ok && final(self).nodes() == collapse_spec(
                old(self).nodes(),
                session_of(old(self).nodes(), index as int),
            ) && final(self).cursor() == session_of(old(self).nodes(), index as int),
    {
        if index >= self.nodes.len() {
            return Err(TreeError::IndexOutOfRange);
        }
        let s = self.session_index(index);
        self.collapse_node(s);
        self.cursor = s;
        proof {
            assert(links_ok(self.nodes@, s as int));
        }
        Ok(())
    }
    fn wraping_next(&mut self)
        requires
            old(self).cursor < old(self).nodes@.len(),
        ensures
            final(self).cursor as int == if old(self).cursor + 1 == old(self).nodes@.len() { 0 } else { old(self).cursor + 1 },
            final(self).nodes == old(self).nodes,
            final(self).quick_find == old(self).quick_find,
    {
        if self.cursor == self.nodes.len() - 1 {
            self.cursor = 0;
        } else {
            self.cursor = self.cursor + 1;
        }
    }

    fn wraping_previous(&mut self)
        requires
            old(self).cursor < old(self).nodes@.len(),
        ensures
            final(self).cursor as int == if old(self).cursor == 0 { old(self).nodes@.len() - 1 } else { old(self).cursor - 1 },
            final(self).nodes == old(self).nodes,
            final(self).quick_find == old(self).quick_find,
    {
        if self.cursor == 0 {
            self.cursor = self.nodes.len() - 1;
        } else {
            self.cursor = self.cursor - 1;
        }
    }

    fn saturating_previous(&mut self)
        ensures
            final(self).cursor as int == if old(self).cursor == 0 { 0 } else { old(self).cursor - 1 },
            final(self).nodes == old(self).nodes,
            final(self).quick_find == old(self).quick_find,
    {
        if self.cursor > 0 {
            self.cursor = self.cursor - 1;
        }
    }

    fn saturating_next(&mut self)
        requires
            old(self).cursor < old(self).nodes@.len(),
        ensures
            final(self).cursor as int == if old(self).cursor + 1 == old(self).nodes@.len() { old(self).cursor as int } else { old(self).cursor + 1 },
            final(self).nodes == old(self).nodes,
            final(self).quick_find == old(self).quick_find,
    {
        if self.cursor < self.nodes.len() - 1 {
            self.cursor = self.cursor + 1;
        }
    }

    /// Moves the cursor to the next shown node, wrapping at the end.
    pub fn handle_down(&mut self) -> (r: Result<(), TreeError>)
        requires
            old(self).wf(),
        ensures
            final(self).wf(),
            final(self).nodes() == old(self).nodes(),
            final(self).quick_find() == old(self).quick_find(),
            old(self).nodes().len() == 0 ==> r == Err::<(), TreeError>(TreeError::CursorOutOfRange)
                && final(self).cursor() == old(self).cursor(),
            old(self).nodes().len() > 0 ==> r is Ok && step_down(old(self).nodes(), old(self).cursor(), final(self).cursor()),
    {
        let n = self.nodes.len();
        if n == 0 {
            return Err(TreeError::CursorOutOfRange);
        }
        let ghost c0 = self.cursor as int;
        let mut i: usize = 0;
        let mut found = false;
        while !found && i <= n
            invariant
                n == self.nodes@.len(),
                n > 0,
                0 <= c0 < n,
                self.nodes@[c0].spec_shown(),
                self.nodes == old(self).nodes,
                self.quick_find == old(self).quick_find,
                self.cursor < n,
                i <= n,
                !found ==> i < n && self.cursor as int == if c0 + i >= n { c0 + i - n } else { c0 + i },
                !found ==> forall|k: int| 0 <= k < n && 0 < dist(c0, k, n as int) <= i
                    ==> !(#[trigger] self.nodes@[k]).spec_shown(),
                found ==> step_down(self.nodes@, c0, self.cursor as int),
            decreases n + 1 - i,
        {
            self.wraping_next();
            i = i + 1;
            if self.nodes[self.cursor].is_shown() {
                found = true;
            }
        }
        Ok(())
    }

    /// Moves the cursor to the previous shown node, wrapping at the start.
    pub fn handle_up(&mut self) -> (r: Result<(), TreeError>)
        requires
            old(self).wf(),
        ensures
            final(self).wf(),
            final(self).nodes() == old(self).nodes(),
            final(self).quick_find() == old(self).quick_find(),
            old(self).nodes().len() == 0 ==> r == Err::<(), TreeError>(TreeError::CursorOutOfRange)
                && final(self).cursor() == old(self).cursor(),
            old(self).nodes().len() > 0 ==> r is Ok && step_up(old(self).nodes(), old(self).cursor(), final(self).cursor()),
    {
        let n = self.nodes.len();
        if n == 0 {
            return Err(TreeError::CursorOutOfRange);
        }
        let ghost c0 = self.cursor as int;
        let mut i: usize = 0;
        let mut found = false;
        while !found && i <= n
            invariant
                n == self.nodes@.len(),
                n > 0,
                0 <= c0 < n,
                self.nodes@[c0].spec_shown(),
                self.nodes == old(self).nodes,
                self.quick_find == old(self).quick_find,
                self.cursor < n,
                i <= n,
                !found ==> i < n && self.cursor as int == if c0 - i < 0 { c0 - i + n } else { c0 - i },
                !found ==> forall|k: int| 0 <= k < n && 0 < dist(k, c0, n as int) <= i
                    ==> !(#[trigger] self.nodes@[k]).spec_shown(),
                found ==> step_up(self.nodes@, c0, self.cursor as int),
            decreases n + 1 - i,
        {
            self.wraping_previous();
            i = i + 1;
            if self.nodes[self.cursor].is_shown() {
                found = true;
            }
        }
        Ok(())
    }

    /// Collapses the cursor's session when it is expanded (the cursor goes to
    /// the session); else moves the cursor to the previous shown node,
    /// stopping at the first row.
    pub fn handle_left(&mut self) -> (r: Result<(), TreeError>)
        requires
            old(self).wf(),
        ensures
            final(self).wf(),
            final(self).quick_find() == old(self).quick_find(),
            old(self).nodes().len() == 0 ==> r == Err::<(), TreeError>(TreeError::CursorOutOfRange)
                && final(self).nodes() == old(self).nodes() && final(self).cursor() == old(self).cursor(),
            old(self).nodes().len() > 0 ==> r is Ok,
            old(self).nodes().len() > 0 && old(self).nodes()[session_of(old(self).nodes(), old(self).cursor())].spec_expanded()
                ==> final(self).nodes() == collapse_spec(old(self).nodes(), session_of(old(self).nodes(), old(self).cursor()))
                && final(self).cursor() == session_of(old(self).nodes(), old(self).cursor()),
            old(self).nodes().len() > 0 && !old(self).nodes()[session_of(old(self).nodes(), old(self).cursor())].spec_expanded()
                ==> final(self).nodes() == old(self).nodes() && step_back(old(self).nodes(), old(self).cursor(), final(self).cursor()),
    {
        let n = self.nodes.len();
        if n == 0 {
            return Err(TreeError::CursorOutOfRange);
        }
        let s = self.session_index(self.cursor);
        if self.nodes[s].is_expanded() {
            return self.collapse(self.cursor);
        }
        let ghost c0 = self.cursor as int;
        let mut i: usize = 0;
        let mut found = false;
        while !found && i <= n
            invariant
                n == self.nodes@.len(),
                n > 0,
                0 <= c0 < n,
                self.nodes@[0].spec_shown(),
                self.nodes == old(self).nodes,
                self.quick_find == old(self).quick_find,
                i <= n,
                !found ==> i <= c0 && self.cursor as int == c0 - i,
                !found ==> forall|k: int| c0 - i < k < c0 ==> !(#[trigger] self.nodes@[k]).spec_shown(),
                !found && i > 0 ==> !self.nodes@[c0 - i].spec_shown(),
                found ==> step_back(self.nodes@, c0, self.cursor as int),
            decreases n + 1 - i,
        {
            self.saturating_previous();
            i = i + 1;
            if self.nodes[self.cursor].is_shown() {
                found = true;
            }
        }
        Ok(())
    }

    /// Expands the node under the cursor when it is collapsed; else moves the
    /// cursor to the next shown node, stopping at the last row.
    pub fn handle_right(&mut self) -> (r: Result<(), TreeError>)
        requires
            old(self).wf(),
        ensures
            final(self).wf(),
            final(self).quick_find() == old(self).quick_find(),
            old(self).nodes().len() == 0 ==> r == Err::<(), TreeError>(TreeError::CursorOutOfRange)
                && final(self).nodes() == old(self).nodes() && final(self).cursor() == old(self).cursor(),
            old(self).nodes().len() > 0 ==> r is Ok,
            old(self).nodes().len() > 0 && !old(self).nodes()[old(self).cursor()].spec_expanded()
                ==> final(self).nodes() == expand_spec(old(self).nodes(), old(self).cursor())
                && final(self).cursor() == old(self).cursor(),
            old(self).nodes().len() > 0 && old(self).nodes()[old(self).cursor()].spec_expanded()
                ==> final(self).nodes() == old(self).nodes()
                && final(self).cursor() == if old(self).cursor() + 1 < old(self).nodes().len() {
                    old(self).cursor() + 1
                } else {
                    old(self).cursor()
                },
    {
        let n = self.nodes.len();
        if n == 0 {
            return Err(TreeError::CursorOutOfRange);
        }
        if !self.nodes[self.cursor].is_expanded() {
            return self.expand(self.cursor);
        }
        let ghost c0 = self.cursor as int;
        let ghost target = if c0 + 1 < n { c0 + 1 } else { c0 };
        proof {
            if c0 + 1 < n {
                lemma_next_is_shown(self.nodes@, c0);
            }
        }
        let mut i: usize = 0;
        let mut found = false;
        while !found && i <= n
            invariant
                n == self.nodes@.len(),
                0 <= c0 < n,
                0 <= target < n,
                target == if c0 + 1 < n { c0 + 1 } else { c0 },
                self.nodes@[target].spec_shown(),
                self.nodes == old(self).nodes,
                self.quick_find == old(self).quick_find,
                i <= n,
                !found ==> i == 0 && self.cursor as int == c0,
                found ==> self.cursor as int == target,
            decreases n + 1 - i,
        {
            self.saturating_next();
            i = i + 1;
            if self.nodes[self.cursor].is_shown() {
                found = true;
            }
        }
        Ok(())
    }
    /// What focusing node `index` asks of the host.
    fn focus_node(&self, index: usize) -> (r: Result<Action, TreeError>)
        requires
            self.wf(),
            index < self.nodes().len(),
        ensures
            result_view(r) == focus_spec(self.nodes(), index as int),
    {
        proof {
            assert(links_ok(self.nodes@, index as int));
        }
        match &self.nodes[index] {
            Node::Session(s) => {
                if s.is_current_session {
                    Err(TreeError::CurrentSession)
                } else {
                    Ok(Action::SwitchSession { name: s.name.clone() })
                }
            },
            Node::Tab(t) => match &self.nodes[t.session] {
                Node::Session(s) => {
                    if s.is_current_session {
                        Ok(Action::FocusOrCreateTab { name: t.name.clone() })
                    } else {
                        Ok(Action::SwitchSessionWithFocus { name: s.name.clone(), tab_position: t.position, pane_id: None })
                    }
                },
                _ => Err(TreeError::MissingParent),
            },
            Node::Pane(p) => match &self.nodes[p.tab] {
                Node::Tab(t) => {
                    proof {
                        assert(links_ok(self.nodes@, p.tab as int));
                    }
                    match &self.nodes[t.session] {
                        Node::Session(s) => {
                            if s.is_current_session {
                                Ok(Action::FocusTerminalPane { id: p.pane_id.0 })
                            } else {
                                Ok(Action::SwitchSessionWithFocus {
                                    name: s.name.clone(),
                                    tab_position: t.position,
                                    pane_id: Some(p.pane_id),
                                })
                            }
                        },
                        _ => Err(TreeError::MissingParent),
                    }
                },
                _ => Err(TreeError::MissingParent),
            },
        }
    }

    /// Focuses the node on visible row `target` of the last render; a row
    /// that the table does not hold asks nothing.
    pub fn switch_by_index(&self, target: usize) -> (r: Result<Action, TreeError>)
        requires
            self.wf(),
        ensures
            target >= self.quick_find().len() ==> r == Err::<Action, TreeError>(TreeError::QuickSelectMiss),
            target < self.quick_find().len() ==> result_view(r) == focus_spec(
                self.nodes(),
                self.quick_find()[target as int] as int,
            ),
    {
        if target >= self.quick_find.len() {
            return Err(TreeError::QuickSelectMiss);
        }
        let index = self.quick_find[target];
        self.focus_node(index)
    }

    /// Focuses the node under the cursor.
    pub fn switch_to_selected(&self) -> (r: Result<Action, TreeError>)
        requires
            self.wf(),
        ensures
            self.nodes().len() == 0 ==> r == Err::<Action, TreeError>(TreeError::CursorOutOfRange),
            self.nodes().len() > 0 ==> result_view(r) == focus_spec(self.nodes(), self.cursor()),
    {
        if self.cursor >= self.nodes.len() {
            return Err(TreeError::CursorOutOfRange);
        }
        self.focus_node(self.cursor)
    }

    /// Terminates the node under the cursor, which only a session allows.
    pub fn kill_selected(&self) -> (r: Result<Action, TreeError>)
        requires
            self.wf(),
        ensures
            self.nodes().len() == 0 ==> r == Err::<Action, TreeError>(TreeError::CursorOutOfRange),
            self.nodes().len() > 0 ==> result_view(r) == self.nodes()[self.cursor()].kill_spec(),
    {
        let node = self.get_current_node()?;
        node.kill()
    }

    /// Lists the visible rows, rebuilds the quick-select table from them and
    /// returns the `rows` rows of the viewport around the cursor.
    pub fn render(&mut self, rows: usize, _cols: usize) -> (r: Vec<Row>)
        requires
            old(self).wf(),
        ensures
            final(self).wf(),
            final(self).nodes() == old(self).nodes(),
            final(self).cursor() == old(self).cursor(),
            final(self).quick_find() == shown_rows(old(self).nodes()),
            ({
                let vis = shown_rows(old(self).nodes());
                let from = window_start(
                    vis.len() as int,
                    shown_prefix(old(self).nodes(), old(self).cursor()).len() as int,
                    rows as int,
                );
                &&& 0 <= from <= vis.len()
                &&& r@.len() == if vis.len() - from > rows { rows as int } else { vis.len() - from }
                &&& forall|k: int| 0 <= k < r@.len() ==> (#[trigger] r@[k])@ == old(self).nodes()[vis[from + k] as int].row_spec(
                    keybind_of(from + k),
                    vis[from + k] as int == old(self).cursor(),
                )
            }),
    {
        let n = self.nodes.len();
        let ghost nodes = self.nodes@;
        let mut table: Vec<usize> = Vec::new();
        let mut cursor_row: usize = 0;
        let mut i: usize = 0;
        while i < n
            invariant
                n == nodes.len(),
                nodes == self.nodes@,
                0 <= i <= n,
                table@ == shown_prefix(nodes, i as int),
                i > self.cursor ==> cursor_row == shown_prefix(nodes, self.cursor as int).len(),
            decreases n - i,
        {
            proof {
                lemma_shown_prefix(nodes, i as int);
            }
            if i == self.cursor {
                cursor_row = table.len();
            }
            if self.nodes[i].is_shown() {
                table.push(i);
            }
            i = i + 1;
        }
        proof {
            lemma_shown_prefix(nodes, n as int);
            if n == 0 {
                assert(shown_prefix(nodes, self.cursor as int) == Seq::<usize>::empty());
            }
        }
        let total = table.len();
        let half: usize = if rows > 0 { (rows - 1) / 2 } else { 0 };
        let centred: usize = if cursor_row > half { cursor_row - half } else { 0 };
        let last: usize = if total > rows { total - rows } else { 0 };
        let from: usize = if centred < last { centred } else { last };
        let end: usize = if total - from > rows { from + rows } else { total };
        let mut keys = KeybindGenerator::new();
        let mut out: Vec<Row> = Vec::new();
        let mut k: usize = 0;
        while k < end
            invariant
                nodes == self.nodes@,
                table@ == shown_rows(nodes),
                total == table@.len(),
                forall|m: int| 0 <= m < total ==> #[trigger] table@[m] < n,
                n == nodes.len(),
                from <= end <= total,
                0 <= k <= end,
                keys.position() == k,
                out@.len() == if k >= from { k - from } else { 0 },
                forall|m: int| 0 <= m < out@.len() ==> (#[trigger] out@[m])@ == nodes[table@[from + m] as int].row_spec(
                    keybind_of(from + m),
                    table@[from + m] as int == self.cursor as int,
                ),
            decreases end - k,
        {
            let key = keys.next();
            if k >= from {
                let j = table[k];
                let row = self.nodes[j].render(key, j == self.cursor);
                out.push(row);
            }
            k = k + 1;
        }
        self.quick_find = table;
        out
    }
    /// Builds the tree from the session feed: each session, then each of its
    /// tabs followed by that tab's panes, in the feed's order. Sessions start
    /// collapsed, everything else hidden, and the cursor on the first row.
    pub fn new(sessions: &Vec<SessionRecord>) -> (r: Self)
        requires
            sessions_size(sessions@) <= usize::MAX,
        ensures
            r.wf(),
            r.cursor() == 0,
            r.quick_find().len() == 0,
            r.nodes().len() == sessions_size(sessions@),
            built_from(r.nodes(), sessions@),
            all_fresh(r.nodes()),
    {
        let mut nodes: Vec<Node> = Vec::new();
        let mut ids = IdGenerator::new();
        let ghost ss = sessions@;
        let mut i: usize = 0;
        while i < sessions.len()
            invariant
                ss == sessions@,
                sessions_size(ss) <= usize::MAX,
                0 <= i <= ss.len(),
                nodes@.len() == sessions_size(ss.take(i as int)),
                ids.peek() == nodes@.len(),
                structure_ok(nodes@),
                all_fresh(nodes@),
                forall|i2: int| 0 <= i2 < i ==> #[trigger] session_built(nodes@, ss[i2], sessions_size(ss.take(i2))),
            decreases ss.len() - i,
        {
            proof {
                lemma_sessions_size_prefix(ss, i as int);
                lemma_sessions_size_prefix(ss, i as int + 1);
                lemma_tabs_size_prefix(ss[i as int].tabs@, 0);
                assert(ss[i as int].tabs@.take(0) =~= Seq::<TabRecord>::empty());
            }
            let ghost base = nodes@;
            let session = &sessions[i];
            let s = ids.next();
            let session_node = Node::Session(Session::new(s, session.name.clone(), session.is_current_session));
            proof {
                lemma_push_node(nodes@, session_node);
            }
            nodes.push(session_node);
            let ghost tabs = session.tabs@;
            let mut t: usize = 0;
            while t < session.tabs.len()
                invariant
                    ss == sessions@,
                    0 <= i < ss.len(),
                    tabs == ss[i as int].tabs@,
                    *session == ss[i as int],
                    sessions_size(ss.take(i as int)) + session_size(ss[i as int]) <= usize::MAX,
                    s == sessions_size(ss.take(i as int)),
                    s == base.len(),
                    0 <= t <= tabs.len(),
                    nodes@.len() == s + 1 + tabs_size(tabs.take(t as int)),
                    ids.peek() == nodes@.len(),
                    nodes@[s as int] is Session,
                    match nodes@[s as int] {
                        Node::Session(x) => x.name@ == session.name@ && x.is_current_session == session.is_current_session,
                        _ => false,
                    },
                    session_of(nodes@, nodes@.len() - 1) == s,
                    structure_ok(nodes@),
                    all_fresh(nodes@),
                    forall|k: int| 0 <= k < base.len() ==> nodes@[k] == base[k],
                    forall|t2: int| 0 <= t2 < t ==> #[trigger] tab_built(nodes@, tabs[t2], s as int, tab_start(s as int, tabs, t2)),
                decreases tabs.len() - t,
            {
                proof {
                    lemma_tabs_size_prefix(tabs, t as int);
                    lemma_tabs_size_prefix(tabs, t as int + 1);
                    lemma_tabs_size_prefix(tabs, tabs.len() as int);
                    assert(tabs.take(tabs.len() as int) =~= tabs);
                }
                let ghost tbase = nodes@;
                let tab = &session.tabs[t];
                let tp = ids.next();
                let tab_node = Node::Tab(Tab::new(tp, tab.name.clone(), tab.position, s, tab.active));
                proof {
                    assert(links_ok(nodes@, nodes@.len() - 1));
                    lemma_push_node(nodes@, tab_node);
                }
                nodes.push(tab_node);
                let mut p: usize = 0;
                while p < tab.panes.len()
                    invariant
                        0 <= t < tabs.len(),
                        *tab == tabs[t as int],
                        s + 1 + tabs_size(tabs.take(t as int)) + tab_size(tabs[t as int]) <= usize::MAX,
                        tp == s + 1 + tabs_size(tabs.take(t as int)),
                        tp == tbase.len(),
                        s < tp,
                        0 <= p <= tab.panes@.len(),
                        nodes@.len() == tp + 1 + p,
                        ids.peek() == nodes@.len(),
                        nodes@[s as int] is Session,
                        nodes@[tp as int] is Tab,
                        match nodes@[tp as int] {
                            Node::Tab(x) => x.name@ == tab.name@ && x.position == tab.position && x.active == tab.active
                                && x.session == s,
                            _ => false,
                        },
                        session_of(nodes@, tp as int) == s,
                        p == 0 ==> nodes@.len() - 1 == tp,
                        p > 0 ==> nodes@[nodes@.len() - 1] is Pane && nodes@[nodes@.len() - 1].spec_parent() == Some(tp),
                        structure_ok(nodes@),
                        all_fresh(nodes@),
                        forall|k: int| 0 <= k < tbase.len() ==> nodes@[k] == tbase[k],
                        forall|p2: int| 0 <= p2 < p ==> pane_built(#[trigger] nodes@[tp + 1 + p2], tab.panes@[p2], tp as int),
                    decreases tab.panes@.len() - p,
                {
                    let pane = &tab.panes[p];
                    let pi = ids.next();
                    let pane_node = Node::Pane(Pane::new(pi, pane.title.clone(), (pane.id, pane.is_plugin), tp, pane.is_focused));
                    proof {
                        lemma_push_node(nodes@, pane_node);
                    }
                    let ghost pre = nodes@;
                    nodes.push(pane_node);
                    p = p + 1;
                    proof {
                        assert forall|p2: int| 0 <= p2 < p implies pane_built(#[trigger] nodes@[tp + 1 + p2], tab.panes@[p2], tp as int) by {
                            if p2 < p - 1 {
                                assert(nodes@[tp + 1 + p2] == pre[tp + 1 + p2]);
                            }
                        }
                    }
                }
                proof {
                    let last = nodes@.len() - 1;
                    assert(links_ok(nodes@, last));
                    assert(tab_built(nodes@, tabs[t as int], s as int, tp as int));
                    assert forall|t2: int| 0 <= t2 < t + 1 implies #[trigger] tab_built(nodes@, tabs[t2], s as int, tab_start(s as int, tabs, t2)) by {
                        if t2 < t {
                            lemma_tabs_size_prefix(tabs, t2);
                            lemma_tabs_size_mono(tabs, t2 + 1, t as int);
                            lemma_tab_built_prefix(tbase, nodes@, tabs[t2], s as int, tab_start(s as int, tabs, t2));
                        }
                    }
                }
                t = t + 1;
            }
            proof {
                assert(tabs.take(tabs.len() as int) =~= tabs);
                assert(session_built(nodes@, ss[i as int], s as int));
                assert forall|i2: int| 0 <= i2 < i + 1 implies #[trigger] session_built(nodes@, ss[i2], sessions_size(ss.take(i2))) by {
                    if i2 < i {
                        lemma_sessions_size_prefix(ss, i2);
                        lemma_sessions_size_mono(ss, i2 + 1, i as int);
                        lemma_session_built_prefix(base, nodes@, ss[i2], sessions_size(ss.take(i2)));
                    }
                }
            }
            i = i + 1;
        }
        proof {
            assert(ss.take(ss.len() as int) =~= ss);
            lemma_fresh_visibility(nodes@);
            if nodes@.len() > 0 {
                assert(is_fresh(nodes@[0]));
            }
        }
        SessionTree { nodes, cursor: 0, quick_find: Vec::new() }
    }
}

impl Default for SessionTree {
    /// The empty tree, which every cursor operation refuses.
    fn default() -> (r: SessionTree)
        ensures
            r.wf(),
            r.nodes().len() == 0,
            r.cursor() == 0,
            r.quick_find().len() == 0,
    {
        SessionTree { nodes: Vec::new(), cursor: 0, quick_find: Vec::new() }
    }
}

} // verus!
