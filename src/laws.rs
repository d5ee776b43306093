use vstd::prelude::*;

use crate::node::Node;
use crate::sessiontree::{collapse_spec, dist, expand_spec, gap, lemma_shown_prefix, links_ok, nodes_ok, shown_rows, step_down, step_up, visibility_ok};

verus! {

/// Moving down from a shown node and then up returns to it.
pub proof fn lemma_down_then_up(nodes: Seq<Node>, c: int, r: int, back: int)
    requires
        0 <= c < nodes.len(),
        nodes[c].spec_shown(),
        step_down(nodes, c, r),
        step_up(nodes, r, back),
    ensures
        back == c,
{
    let n = nodes.len() as int;
    if back != c {
        if r == c {
            assert(0 < dist(c, back, n) < gap(c, r, n));
            assert(!nodes[back].spec_shown());
        } else if back == r {
            assert(0 < dist(c, r, n) < gap(back, r, n));
            assert(!nodes[c].spec_shown());
        } else if dist(c, r, n) < dist(back, r, n) {
            assert(0 < dist(c, r, n) < gap(back, r, n));
            assert(!nodes[c].spec_shown());
        } else {
            assert(0 < dist(c, back, n) < gap(c, r, n));
            assert(!nodes[back].spec_shown());
        }
    }
}

/// Moving up from a shown node and then down returns to it.
pub proof fn lemma_up_then_down(nodes: Seq<Node>, c: int, r: int, back: int)
    requires
        0 <= c < nodes.len(),
        nodes[c].spec_shown(),
        step_up(nodes, c, r),
        step_down(nodes, r, back),
    ensures
        back == c,
{
    let n = nodes.len() as int;
    if back != c {
        if r == c {
            assert(0 < dist(back, c, n) < gap(r, c, n));
            assert(!nodes[back].spec_shown());
        } else if back == r {
            assert(0 < dist(r, c, n) < gap(r, back, n));
            assert(!nodes[c].spec_shown());
        } else if dist(r, c, n) < dist(r, back, n) {
            assert(0 < dist(r, c, n) < gap(r, back, n));
            assert(!nodes[c].spec_shown());
        } else {
            assert(0 < dist(back, c, n) < gap(r, c, n));
            assert(!nodes[back].spec_shown());
        }
    }
}

/// Expanding a collapsed node and then collapsing it gives back the nodes
/// exactly as they were.
pub proof fn lemma_expand_collapse_round_trip(nodes: Seq<Node>, x: int)
    requires
        nodes_ok(nodes),
        0 <= x < nodes.len(),
        nodes[x] is Pane || !nodes[x].spec_expanded(),
    ensures
        collapse_spec(expand_spec(nodes, x), x) == nodes,
{
    if !(nodes[x] is Pane) {
        let e = expand_spec(nodes, x);
        let c = collapse_spec(e, x);
        assert(links_ok(nodes, x));
        assert forall|j: int| 0 <= j < nodes.len() implies #[trigger] c[j] == nodes[j] by {
            assert(links_ok(nodes, j));
            assert(visibility_ok(nodes, j));
            match nodes[j].spec_parent() {
                Some(t) => {
                    assert(links_ok(nodes, t as int));
                    assert(visibility_ok(nodes, t as int));
                },
                None => {},
            }
        }
        assert(c =~= nodes);
    }
}

/// How far below the start of `path` its `i`-th position lies; a full turn
/// once the path is back at its start.
pub open spec fn depth(path: Seq<int>, i: int, n: int) -> int {
    if i > 0 && path[i] == path[0] {
        n
    } else {
        dist(path[0], path[i], n)
    }
}

/// Each step down moves deeper, and skips no shown node.
proof fn lemma_down_advance(nodes: Seq<Node>, path: Seq<int>, i: int)
    requires
        nodes.len() > 0,
        path.len() == nodes.len() + 1,
        0 <= path[0] < nodes.len(),
        nodes[path[0]].spec_shown(),
        forall|m: int| 0 <= m < nodes.len() ==> #[trigger] step_down(nodes, path[m], path[m + 1]),
        0 <= i < nodes.len(),
        forall|j: int| 0 < j <= i ==> #[trigger] path[j] != path[0],
    ensures
        0 <= path[i] < nodes.len(),
        0 <= path[i + 1] < nodes.len(),
        depth(path, i + 1, nodes.len() as int) > depth(path, i, nodes.len() as int),
        forall|s: int|
            0 <= s < nodes.len() && (#[trigger] nodes[s]).spec_shown() && s != path[0] ==> !(depth(
                path,
                i,
                nodes.len() as int,
            ) < dist(path[0], s, nodes.len() as int) < depth(path, i + 1, nodes.len() as int)),
{
    let n = nodes.len() as int;
    let c = path[0];
    let a = path[i];
    let b = path[i + 1];
    assert(step_down(nodes, a, b));
    if i > 0 {
        let m = i - 1;
        assert(step_down(nodes, path[m], path[m + 1]));
        assert(m + 1 == i);
    }
    let d = dist(c, a, n);
    let g = gap(a, b, n);
    if d + g > n {
        assert(0 < dist(a, c, n) < g);
        assert(!nodes[c].spec_shown());
    }
    assert forall|s: int|
        0 <= s < n && (#[trigger] nodes[s]).spec_shown() && s != c implies !(depth(path, i, n) < dist(c, s, n) < depth(
            path,
            i + 1,
            n,
        )) by {
        if depth(path, i, n) < dist(c, s, n) < depth(path, i + 1, n) {
            assert(0 < dist(a, s, n) < g);
        }
    }
}

proof fn lemma_down_depths(nodes: Seq<Node>, path: Seq<int>, i: int, j: int)
    requires
        nodes.len() > 0,
        path.len() == nodes.len() + 1,
        0 <= path[0] < nodes.len(),
        nodes[path[0]].spec_shown(),
        forall|m: int| 0 <= m < nodes.len() ==> #[trigger] step_down(nodes, path[m], path[m + 1]),
        0 <= i < j <= nodes.len(),
        forall|m: int| 0 < m < j ==> #[trigger] path[m] != path[0],
    ensures
        depth(path, j, nodes.len() as int) > depth(path, i, nodes.len() as int),
        depth(path, j, nodes.len() as int) >= j,
        0 <= path[j] < nodes.len(),
    decreases j,
{
    lemma_down_advance(nodes, path, j - 1);
    if j - 1 > i {
        lemma_down_depths(nodes, path, i, j - 1);
    } else if j - 1 > 0 {
        lemma_down_depths(nodes, path, 0, j - 1);
    }
    if j - 1 > 0 && j - 1 != i {
        lemma_down_depths(nodes, path, 0, j - 1);
    }
}

proof fn lemma_down_returns(nodes: Seq<Node>, path: Seq<int>, i: int) -> (k: int)
    requires
        nodes.len() > 0,
        path.len() == nodes.len() + 1,
        0 <= path[0] < nodes.len(),
        nodes[path[0]].spec_shown(),
        forall|m: int| 0 <= m < nodes.len() ==> #[trigger] step_down(nodes, path[m], path[m + 1]),
        1 <= i <= nodes.len(),
        forall|m: int| 0 < m < i ==> #[trigger] path[m] != path[0],
    ensures
        i <= k <= nodes.len(),
        path[k] == path[0],
        forall|m: int| 0 < m < k ==> #[trigger] path[m] != path[0],
    decreases nodes.len() - i,
{
    if path[i] == path[0] {
        i
    } else if i == nodes.len() {
        lemma_down_depths(nodes, path, 0, i);
        assert(false);
        i
    } else {
        lemma_down_returns(nodes, path, i + 1)
    }
}

proof fn lemma_down_covers(nodes: Seq<Node>, path: Seq<int>, k: int, s: int, i: int) -> (j: int)
    requires
        nodes.len() > 0,
        path.len() == nodes.len() + 1,
        0 <= path[0] < nodes.len(),
        nodes[path[0]].spec_shown(),
        forall|m: int| 0 <= m < nodes.len() ==> #[trigger] step_down(nodes, path[m], path[m + 1]),
        1 <= k <= nodes.len(),
        path[k] == path[0],
        forall|m: int| 0 < m < k ==> #[trigger] path[m] != path[0],
        0 <= s < nodes.len(),
        nodes[s].spec_shown(),
        s != path[0],
        0 <= i < k,
        depth(path, i, nodes.len() as int) <= dist(path[0], s, nodes.len() as int),
    ensures
        0 <= j < k,
        path[j] == s,
    decreases k - i,
{
    let n = nodes.len() as int;
    lemma_down_advance(nodes, path, i);
    if depth(path, i, n) == dist(path[0], s, n) {
        i
    } else {
        lemma_down_covers(nodes, path, k, s, i + 1)
    }
}

/// Moving down again and again from a shown node comes back to it within
/// one move per node, and on the way passes every shown node exactly once.
pub proof fn lemma_down_cycle(nodes: Seq<Node>, path: Seq<int>)
    requires
        path.len() == nodes.len() + 1,
        0 <= path[0] < nodes.len(),
        nodes[path[0]].spec_shown(),
        forall|i: int| 0 <= i < nodes.len() ==> #[trigger] step_down(nodes, path[i], path[i + 1]),
    ensures
        exists|k: int|
            1 <= k <= nodes.len() && #[trigger] path[k] == path[0] && (forall|i: int, j: int| 0 <= i < j < k ==> #[trigger] path[i] != #[trigger] path[j])
                && (forall|s: int| 0 <= s < nodes.len() && #[trigger] nodes[s].spec_shown() ==> exists|i: int| 0 <= i < k && #[trigger] path[i] == s),
{
    let n = nodes.len() as int;
    let k = lemma_down_returns(nodes, path, 1);
    assert forall|i: int, j: int| 0 <= i < j < k implies #[trigger] path[i] != #[trigger] path[j] by {
        lemma_down_depths(nodes, path, i, j);
        if i > 0 {
            lemma_down_depths(nodes, path, 0, i);
        }
    }
    assert forall|s: int| 0 <= s < n && #[trigger] nodes[s].spec_shown() implies exists|i: int| 0 <= i < k && #[trigger] path[i] == s by {
        if s == path[0] {
            assert(path[0] == s);
        } else {
            let j = lemma_down_covers(nodes, path, k, s, 0);
            assert(path[j] == s);
        }
    }
}

/// Every row of a render belongs to a shown node.
pub proof fn lemma_rows_are_shown(nodes: Seq<Node>)
    requires
        nodes.len() <= usize::MAX,
    ensures
        forall|k: int| 0 <= k < shown_rows(nodes).len() ==> nodes[#[trigger] shown_rows(nodes)[k] as int].spec_shown(),
{
    lemma_shown_prefix(nodes, nodes.len() as int);
}

} // verus!
