//! The directed graph of a workflow: its nodes, and an edge for every connection.
//!
//! Every id that occurs (a node's, or a connection's end) is a vertex with an index; the
//! edges are kept in connection order. Connections may name ids that are not nodes of the
//! workflow; such ids are vertices but not nodes.

use vstd::prelude::*;
use crate::automation::{first_node_with_id, first_trigger, Connection, Node, NodeType, Workflow, WorkflowError};
use crate::text::{owned, str_eq};

verus! {

/// `e` holds an edge from `a` to `b`.
pub open spec fn is_edge(e: Seq<(Seq<char>, Seq<char>)>, a: Seq<char>, b: Seq<char>) -> bool {
    exists|k: int| 0 <= k < e.len() && #[trigger] e[k] == (a, b)
}

/// The step from `w[k]` to `w[k + 1]` follows an edge.
pub open spec fn step(e: Seq<(Seq<char>, Seq<char>)>, w: Seq<Seq<char>>, k: int) -> bool {
    is_edge(e, w[k], w[k + 1])
}

/// `w` is a walk: at least one vertex, each next one along an edge.
pub open spec fn is_walk(e: Seq<(Seq<char>, Seq<char>)>, w: Seq<Seq<char>>) -> bool {
    &&& w.len() >= 1
    &&& forall|k: int| 0 <= k < w.len() - 1 ==> #[trigger] step(e, w, k)
}

/// Some vertex occurs twice in `w`.
pub open spec fn has_repeat<T>(w: Seq<T>) -> bool {
    exists|i: int, j: int| 0 <= i < j < w.len() && w[i] == w[j]
}

/// A walk that starts at a node runs into a cycle.
pub open spec fn cycle_from_node(e: Seq<(Seq<char>, Seq<char>)>, nodes: Seq<Seq<char>>) -> bool {
    exists|w: Seq<Seq<char>>| is_walk(e, w) && nodes.contains(w[0]) && has_repeat(w)
}

/// There is a walk of at least one edge from `a` to `b`.
pub open spec fn leads_to(e: Seq<(Seq<char>, Seq<char>)>, a: Seq<char>, b: Seq<char>) -> bool {
    exists|w: Seq<Seq<char>>| is_walk(e, w) && w.len() >= 2 && w[0] == a && w.last() == b
}

/// Targets of the edges from `s` among the first `n` edges, in order.
pub open spec fn targets_of(e: Seq<(Seq<char>, Seq<char>)>, s: Seq<char>, n: nat) -> Seq<Seq<char>>
    decreases n,
{
    if n == 0 {
        seq![]
    } else {
        let rest = targets_of(e, s, (n - 1) as nat);
        if e[n - 1].0 == s {
            rest.push(e[n - 1].1)
        } else {
            rest
        }
    }
}

/// Sources of the edges into `s` among the first `n` edges, in order.
pub open spec fn sources_of(e: Seq<(Seq<char>, Seq<char>)>, s: Seq<char>, n: nat) -> Seq<Seq<char>>
    decreases n,
{
    if n == 0 {
        seq![]
    } else {
        let rest = sources_of(e, s, (n - 1) as nat);
        if e[n - 1].1 == s {
            rest.push(e[n - 1].0)
        } else {
            rest
        }
    }
}

/// Some edge enters a node from an id that is not a node.
pub open spec fn has_outside_source(e: Seq<(Seq<char>, Seq<char>)>, nodes: Seq<Seq<char>>) -> bool {
    exists|k: int| 0 <= k < e.len() && nodes.contains((#[trigger] e[k]).1) && !nodes.contains(e[k].0)
}

/// The edges of a workflow's connections, in order.
pub open spec fn connection_edges(conns: Seq<Connection>) -> Seq<(Seq<char>, Seq<char>)> {
    Seq::new(conns.len(), |k: int| (conns[k].source_node@, conns[k].target_node@))
}

/// There is a walk (of any length) from `a` to `b`.
pub open spec fn reaches(e: Seq<(Seq<char>, Seq<char>)>, a: Seq<char>, b: Seq<char>) -> bool {
    exists|w: Seq<Seq<char>>| is_walk(e, w) && w[0] == a && w.last() == b
}

/// A walk from `a` runs into a cycle.
pub open spec fn cycle_from(e: Seq<(Seq<char>, Seq<char>)>, a: Seq<char>) -> bool {
    exists|w: Seq<Seq<char>>| is_walk(e, w) && w[0] == a && has_repeat(w)
}

/// The views of `v`, in order.
pub open spec fn views(v: Seq<String>) -> Seq<Seq<char>> {
    Seq::new(v.len(), |i: int| v[i]@)
}

/// One of the first `n` strings of `ids` is `s`.
pub open spec fn has_id(ids: Seq<String>, n: int, s: Seq<char>) -> bool {
    exists|v: int| 0 <= v < n && (#[trigger] ids[v])@ == s
}

/// One of the first `n` nodes has id `s`.
pub open spec fn node_named(nodes: Seq<crate::automation::Node>, n: int, s: Seq<char>) -> bool {
    exists|j: int| 0 <= j < n && (#[trigger] nodes[j]).id@ == s
}

/// Edge from vertex `a` to vertex `b`, by index.
pub open spec fn iedge(e: Seq<(usize, usize)>, a: int, b: int) -> bool {
    exists|k: int| 0 <= k < e.len() && (#[trigger] e[k]).0 == a && e[k].1 == b
}

pub open spec fn istep(e: Seq<(usize, usize)>, w: Seq<int>, k: int) -> bool {
    iedge(e, w[k], w[k + 1])
}

/// A walk by vertex index.
pub open spec fn iwalk(e: Seq<(usize, usize)>, w: Seq<int>) -> bool {
    &&& w.len() >= 1
    &&& forall|k: int| 0 <= k < w.len() - 1 ==> #[trigger] istep(e, w, k)
}

/// Every vertex of `w` is below `n`.
pub open spec fn in_range(w: Seq<int>, n: int) -> bool {
    forall|k: int| 0 <= k < w.len() ==> 0 <= #[trigger] w[k] < n
}

/// Extending a walk by an edge from its last vertex gives a walk.
proof fn lemma_iwalk_push(e: Seq<(usize, usize)>, w: Seq<int>, v: int)
    requires
        iwalk(e, w),
        iedge(e, w.last(), v),
    ensures
        iwalk(e, w.push(v)),
{
    let w2 = w.push(v);
    assert forall|k: int| 0 <= k < w2.len() - 1 implies #[trigger] istep(e, w2, k) by {
        if k < w.len() - 1 {
            assert(istep(e, w, k));
        }
    }
}

/// Every prefix of a walk is a walk.
proof fn lemma_iwalk_prefix(e: Seq<(usize, usize)>, w: Seq<int>, n: int)
    requires
        iwalk(e, w),
        1 <= n <= w.len(),
    ensures
        iwalk(e, w.subrange(0, n)),
{
    let p = w.subrange(0, n);
    assert forall|k: int| 0 <= k < p.len() - 1 implies #[trigger] istep(e, p, k) by {
        assert(istep(e, w, k));
    }
}

/// Walks whose ends meet join into one walk.
proof fn lemma_iwalk_join(e: Seq<(usize, usize)>, a: Seq<int>, b: Seq<int>)
    requires
        iwalk(e, a),
        iwalk(e, b),
        a.last() == b[0],
    ensures
        iwalk(e, a + b.drop_first()),
        (a + b.drop_first())[0] == a[0],
        (a + b.drop_first()).last() == b.last(),
{
    let c = a + b.drop_first();
    assert forall|k: int| 0 <= k < c.len() - 1 implies #[trigger] istep(e, c, k) by {
        if k < a.len() - 1 {
            assert(istep(e, a, k));
        } else {
            assert(istep(e, b, k - a.len() + 1));
        }
    }
}

/// The vertices of a walk that has an edge are all edge endpoints, so below `n` when
/// every edge's are.
proof fn lemma_iwalk_in_range(e: Seq<(usize, usize)>, w: Seq<int>, n: int)
    requires
        iwalk(e, w),
        w.len() >= 2 || 0 <= w[0] < n,
        forall|k: int| 0 <= k < e.len() ==> (#[trigger] e[k]).0 < n && e[k].1 < n,
    ensures
        in_range(w, n),
{
    assert forall|k: int| 0 <= k < w.len() implies 0 <= #[trigger] w[k] < n by {
        if w.len() >= 2 {
            if k < w.len() - 1 {
                assert(istep(e, w, k));
            } else {
                assert(istep(e, w, k - 1));
            }
        }
    }
}

/// The number of `false` entries of `s`.
pub open spec fn count_false(s: Seq<bool>) -> nat
    decreases s.len(),
{
    if s.len() == 0 {
        0
    } else {
        count_false(s.drop_last()) + if s.last() { 0nat } else { 1nat }
    }
}

proof fn lemma_count_false_set(s: Seq<bool>, i: int)
    requires
        0 <= i < s.len(),
        !s[i],
    ensures
        count_false(s.update(i, true)) + 1 == count_false(s),
    decreases s.len(),
{
    let t = s.update(i, true);
    if i < s.len() - 1 {
        assert(t.drop_last() =~= s.drop_last().update(i, true));
        lemma_count_false_set(s.drop_last(), i);
    } else {
        assert(t.drop_last() =~= s.drop_last());
    }
}

/// Reachability closed under edges: a walk from a seed ends at a marked vertex.
proof fn lemma_closed_reach(e: Seq<(usize, usize)>, n: int, seed: Seq<bool>, marked: Seq<bool>, done: Seq<bool>, w: Seq<int>)
    requires
        seed.len() == n,
        marked.len() == n,
        done.len() == n,
        forall|k: int| 0 <= k < e.len() ==> (#[trigger] e[k]).0 < n && e[k].1 < n,
        forall|v: int| 0 <= v < n && #[trigger] seed[v] ==> marked[v],
        forall|v: int| 0 <= v < n && #[trigger] marked[v] ==> done[v],
        forall|v: int, k: int| 0 <= v < n && 0 <= k < e.len() && #[trigger] done[v] && (#[trigger] e[k]).0 == v ==> marked[e[k].1 as int],
        iwalk(e, w),
        0 <= w[0] < n,
        seed[w[0]],
    ensures
        marked[w.last()],
    decreases w.len(),
{
    if w.len() > 1 {
        let p = w.subrange(0, w.len() - 1);
        lemma_iwalk_prefix(e, w, w.len() - 1);
        lemma_closed_reach(e, n, seed, marked, done, p);
        lemma_iwalk_in_range(e, w, n);
        assert(istep(e, w, w.len() - 2));
        let k = choose|k: int| 0 <= k < e.len() && (#[trigger] e[k]).0 == w[w.len() - 2] && e[k].1 == w[w.len() - 1];
        assert(done[w[w.len() - 2]]);
    }
}

/// Some edge enters `v` from a member that is not done yet.
pub open spec fn live_pred(e: Seq<(usize, usize)>, member: Seq<bool>, done: Seq<bool>, v: int) -> bool {
    exists|k: int| 0 <= k < e.len() && (#[trigger] e[k]).1 == v && member[e[k].0 as int] && !done[e[k].0 as int]
}

/// Along a walk whose vertices all occur in `order`, where no edge goes from a later (or
/// the same) entry to an earlier one, no vertex repeats.
proof fn lemma_forward_no_repeat(e: Seq<(usize, usize)>, order: Seq<usize>, w: Seq<int>)
    requires
        forall|i: int, j: int| 0 <= i <= j < order.len() ==> !iedge(e, #[trigger] order[j] as int, #[trigger] order[i] as int),
        forall|k: int| 0 <= k < w.len() ==> #[trigger] in_order(order, w[k]),
        iwalk(e, w),
    ensures
        !has_repeat(w),
{
    if has_repeat(w) {
        let (a, b) = choose|a: int, b: int| 0 <= a < b < w.len() && w[a] == w[b];
        lemma_forward_positions(e, order, w, b);
        assert(pos_in(order, w[a]) < pos_in(order, w[b]));
    }
}

/// `x` occurs in `order`.
pub open spec fn in_order(order: Seq<usize>, x: int) -> bool {
    exists|i: int| 0 <= i < order.len() && order[i] == x
}

/// Where `x` occurs in `order`.
spec fn pos_in(order: Seq<usize>, x: int) -> int {
    choose|i: int| 0 <= i < order.len() && order[i] == x
}

proof fn lemma_forward_positions(e: Seq<(usize, usize)>, order: Seq<usize>, w: Seq<int>, b: int)
    requires
        forall|i: int, j: int| 0 <= i <= j < order.len() ==> !iedge(e, #[trigger] order[j] as int, #[trigger] order[i] as int),
        forall|k: int| 0 <= k < w.len() ==> #[trigger] in_order(order, w[k]),
        iwalk(e, w),
        0 <= b < w.len(),
    ensures
        forall|a: int| 0 <= a < b ==> #[trigger] pos_in(order, w[a]) < pos_in(order, w[b]),
    decreases b,
{
    if b > 0 {
        lemma_forward_positions(e, order, w, b - 1);
        assert(in_order(order, w[b - 1]));
        assert(in_order(order, w[b]));
        let p = pos_in(order, w[b - 1]);
        let q = pos_in(order, w[b]);
        assert(istep(e, w, b - 1));
        if q <= p {
            assert(!iedge(e, order[p] as int, order[q] as int));
        }
    }
}

/// A backward walk `back` (each entry entered from the next) closed by an edge from `u`,
/// which is `back[j]`, into its last entry gives a cycle through its entries.
proof fn lemma_back_cycle(e: Seq<(usize, usize)>, back: Seq<int>, u: int, j: int) -> (cyc: Seq<int>)
    requires
        back.len() >= 1,
        0 <= j < back.len(),
        back[j] == u,
        iedge(e, u, back.last()),
        forall|i: int| 0 <= i < back.len() - 1 ==> iedge(e, #[trigger] back[i + 1], back[i]),
    ensures
        iwalk(e, cyc),
        has_repeat(cyc),
        forall|k: int| 0 <= k < cyc.len() ==> exists|i: int| 0 <= i < back.len() && #[trigger] cyc[k] == back[i],
{
    let len = back.len() as int;
    let cyc = seq![u] + Seq::new((len - j) as nat, |i: int| back[len - 1 - i]);
    assert(cyc[0] == u);
    assert(cyc[len - j] == back[j]);
    assert forall|k: int| 0 <= k < cyc.len() - 1 implies #[trigger] istep(e, cyc, k) by {
        if k == 0 {
            assert(cyc[1] == back[len - 1]);
        } else {
            assert(cyc[k] == back[len - k]);
            assert(cyc[k + 1] == back[len - 1 - k]);
            assert(iedge(e, back[(len - 1 - k) + 1], back[len - 1 - k]));
        }
    }
    assert forall|k: int| 0 <= k < cyc.len() implies exists|i: int| 0 <= i < back.len() && #[trigger] cyc[k] == back[i] by {
        if k > 0 {
            assert(cyc[k] == back[len - 1 - (k - 1)]);
        } else {
            assert(cyc[k] == back[j]);
        }
    }
    assert(cyc[0] == cyc[len - j]);
    cyc
}

/// A walk of at least two vertices, from `a` to `b`, by index.
pub open spec fn ileads(e: Seq<(usize, usize)>, a: int, b: int) -> bool {
    exists|w: Seq<int>| iwalk(e, w) && w.len() >= 2 && w[0] == a && w.last() == b
}

/// Dropping the first vertex of a walk of two or more leaves a walk.
proof fn lemma_iwalk_drop_first(e: Seq<(usize, usize)>, w: Seq<int>)
    requires
        iwalk(e, w),
        w.len() >= 2,
    ensures
        iwalk(e, w.drop_first()),
{
    let d = w.drop_first();
    assert forall|k: int| 0 <= k < d.len() - 1 implies #[trigger] istep(e, d, k) by {
        assert(istep(e, w, k + 1));
    }
}

/// `v` is reached by a walk from a seed.
pub open spec fn ireach(e: Seq<(usize, usize)>, seed: Seq<bool>, n: int, v: int) -> bool {
    exists|w: Seq<int>| iwalk(e, w) && in_range(w, n) && seed[w[0]] && w.last() == v
}

/// A walk from a seed runs into a cycle.
pub open spec fn icycle_from(e: Seq<(usize, usize)>, seed: Seq<bool>, n: int) -> bool {
    exists|w: Seq<int>| iwalk(e, w) && in_range(w, n) && seed[w[0]] && has_repeat(w)
}

fn all_false(n: usize) -> (r: Vec<bool>)
    ensures
        r@.len() == n,
        forall|k: int| 0 <= k < n ==> !(#[trigger] r@[k]),
{
    let mut r: Vec<bool> = Vec::new();
    let mut i: usize = 0;
    while i < n
        invariant
            i <= n,
            r@.len() == i,
            forall|k: int| 0 <= k < i ==> !(#[trigger] r@[k]),
        decreases n - i,
    {
        r.push(false);
        i = i + 1;
    }
    r
}

pub struct DirectedGraph {
    /// Every id that occurs, each once.
    ids: Vec<String>,
    /// Which ids are nodes of the workflow.
    is_node: Vec<bool>,
    /// The node ids, by index, in first-seen order.
    nodes: Vec<usize>,
    /// One edge per connection, by index, in connection order.
    edges: Vec<(usize, usize)>,
}

impl DirectedGraph {
    /// The vertex ids.
    pub closed spec fn ids(&self) -> Seq<Seq<char>> {
        views(self.ids@)
    }

    /// The distinct node ids, in the order they first occur among the workflow's nodes.
    pub closed spec fn node_ids(&self) -> Seq<Seq<char>> {
        Seq::new(self.nodes@.len(), |i: int| self.ids@[self.nodes@[i] as int]@)
    }

    /// The edges, one per connection, in connection order.
    pub closed spec fn edges(&self) -> Seq<(Seq<char>, Seq<char>)> {
        Seq::new(
            self.edges@.len(),
            |k: int| (self.ids@[self.edges@[k].0 as int]@, self.ids@[self.edges@[k].1 as int]@),
        )
    }

    pub closed spec fn wf(&self) -> bool {
        &&& self.is_node@.len() == self.ids@.len()
        &&& forall|a: int, b: int| 0 <= a < b < self.ids@.len() ==> #[trigger] self.ids@[a]@ != #[trigger] self.ids@[b]@
        &&& forall|k: int| 0 <= k < self.edges@.len() ==> (#[trigger] self.edges@[k]).0 < self.ids@.len() && self.edges@[k].1 < self.ids@.len()
        &&& forall|i: int| 0 <= i < self.nodes@.len() ==> (#[trigger] self.nodes@[i]) < self.ids@.len() && self.is_node@[self.nodes@[i] as int]
        &&& forall|a: int, b: int| 0 <= a < b < self.nodes@.len() ==> #[trigger] self.nodes@[a] != #[trigger] self.nodes@[b]
        &&& forall|v: int| 0 <= v < self.ids@.len() && #[trigger] self.is_node@[v] ==> exists|i: int| 0 <= i < self.nodes@.len() && self.nodes@[i] == v
    }

    /// Index of the vertex `s`, if there is one.
    fn find(&self, s: &str) -> (r: Option<usize>)
        requires
            self.wf(),
        ensures
            match r {
                Some(v) => v < self.ids@.len() && self.ids@[v as int]@ == s@,
                None => forall|v: int| 0 <= v < self.ids@.len() ==> (#[trigger] self.ids@[v])@ != s@,
            },
    {
        let mut i: usize = 0;
        while i < self.ids.len()
            invariant
                i <= self.ids@.len(),
                forall|v: int| 0 <= v < i ==> (#[trigger] self.ids@[v])@ != s@,
            decreases self.ids@.len() - i,
        {
            if str_eq(self.ids[i].as_str(), s) {
                return Some(i);
            }
            i = i + 1;
        }
        None
    }

    /// Index of the vertex `s`, added if it is new.
    fn intern(&mut self, s: &String) -> (r: usize)
        requires
            old(self).wf(),
        ensures
            final(self).wf(),
            r < final(self).ids@.len(),
            final(self).ids@[r as int]@ == s@,
            final(self).ids@.len() == old(self).ids@.len() || (final(self).ids@.len() == old(self).ids@.len() + 1
                && r == old(self).ids@.len()),
            forall|v: int| 0 <= v < old(self).ids@.len() ==> final(self).ids@[v] == old(self).ids@[v] && final(self).is_node@[v] == old(self).is_node@[v],
            forall|v: int| old(self).ids@.len() <= v < final(self).ids@.len() ==> !final(self).is_node@[v],
            final(self).nodes@ == old(self).nodes@,
            final(self).edges@ == old(self).edges@,
    {
        match self.find(s.as_str()) {
            Some(v) => v,
            None => {
                let v = self.ids.len();
                self.ids.push(s.clone());
                self.is_node.push(false);
                assert forall|a: int, b: int| 0 <= a < b < self.ids@.len() implies #[trigger] self.ids@[a]@ != #[trigger] self.ids@[b]@ by {
                    if b == v {
                        assert(old(self).ids@[a]@ != s@);
                    } else {
                        assert(old(self).ids@[a] == self.ids@[a] && old(self).ids@[b] == self.ids@[b]);
                    }
                }
                assert forall|w: int| 0 <= w < self.ids@.len() && #[trigger] self.is_node@[w] implies exists|i: int| 0 <= i < self.nodes@.len() && self.nodes@[i] == w by {
                    assert(self.is_node@ == old(self).is_node@.push(false));
                    if w == v as int {
                        assert(!self.is_node@[w]);
                    } else {
                        assert(old(self).is_node@[w]);
                        let i = choose|i: int| 0 <= i < old(self).nodes@.len() && old(self).nodes@[i] == w;
                        assert(self.nodes@[i] == w);
                    }
                }
                v
            },
        }
    }

    /// The vertices a walk (of any length) from a seed reaches, each with such a walk.
    #[verifier::spinoff_prover]
    #[verifier::rlimit(40)]
    fn reach_from(&self, seed: &Vec<bool>) -> (r: (Vec<bool>, Ghost<Seq<Seq<int>>>))
        requires
            self.wf(),
            seed@.len() == self.ids@.len(),
        ensures
            r.0@.len() == self.ids@.len(),
            r.1@.len() == self.ids@.len(),
            forall|v: int| 0 <= v < self.ids@.len() && #[trigger] r.0@[v] ==> {
                let w = r.1@[v];
                &&& iwalk(self.edges@, w)
                &&& in_range(w, self.ids@.len() as int)
                &&& seed@[w[0]]
                &&& w.last() == v
            },
            forall|w: Seq<int>| iwalk(self.edges@, w) && 0 <= w[0] < self.ids@.len() && seed@[w[0]] ==> #[trigger] r.0@[w.last()],
    {
        let n = self.ids.len();
        let mut marked: Vec<bool> = Vec::new();
        let mut i: usize = 0;
        while i < n
            invariant
                i <= n,
                n == seed@.len(),
                marked@ == seed@.subrange(0, i as int),
            decreases n - i,
        {
            marked.push(seed[i]);
            i = i + 1;
            assert(marked@ =~= seed@.subrange(0, i as int));
        }
        assert(marked@ =~= seed@);
        let mut done = all_false(n);
        let ghost mut wit: Seq<Seq<int>> = Seq::new(n as nat, |v: int| seq![v]);
        loop
            invariant
                self.wf(),
                n == self.ids@.len(),
                seed@.len() == n,
                marked@.len() == n,
                done@.len() == n,
                wit.len() == n,
                forall|v: int| 0 <= v < n && #[trigger] seed@[v] ==> marked@[v],
                forall|v: int| 0 <= v < n && #[trigger] marked@[v] ==> {
                    let w = wit[v];
                    &&& iwalk(self.edges@, w)
                    &&& in_range(w, n as int)
                    &&& seed@[w[0]]
                    &&& w.last() == v
                },
                forall|v: int| 0 <= v < n && #[trigger] done@[v] ==> marked@[v],
                forall|v: int, k: int| 0 <= v < n && 0 <= k < self.edges@.len() && #[trigger] done@[v] && (#[trigger] self.edges@[k]).0 == v ==> marked@[self.edges@[k].1 as int],
            ensures
                forall|v: int| 0 <= v < n && #[trigger] marked@[v] ==> done@[v],
            decreases count_false(done@),
        {
            let mut v: usize = 0;
            while v < n && !(marked[v] && !done[v])
                invariant
                    v <= n,
                    marked@.len() == n,
                    done@.len() == n,
                    forall|u: int| 0 <= u < v ==> !(#[trigger] marked@[u] && !done@[u]),
                decreases n - v,
            {
                v = v + 1;
            }
            if v == n {
                break;
            }
            proof {
                lemma_count_false_set(done@, v as int);
            }
            done.set(v, true);
            let mut k: usize = 0;
            while k < self.edges.len()
                invariant
                    self.wf(),
                    n == self.ids@.len(),
                    seed@.len() == n,
                    marked@.len() == n,
                    done@.len() == n,
                    wit.len() == n,
                    v < n,
                    marked@[v as int],
                    done@[v as int],
                    k <= self.edges@.len(),
                    forall|u: int| 0 <= u < n && #[trigger] seed@[u] ==> marked@[u],
                    forall|u: int| 0 <= u < n && #[trigger] marked@[u] ==> {
                        let w = wit[u];
                        &&& iwalk(self.edges@, w)
                        &&& in_range(w, n as int)
                        &&& seed@[w[0]]
                        &&& w.last() == u
                    },
                    forall|u: int| 0 <= u < n && #[trigger] done@[u] ==> marked@[u],
                    forall|u: int, j: int| 0 <= u < n && 0 <= j < self.edges@.len() && u != v && #[trigger] done@[u] && (#[trigger] self.edges@[j]).0 == u ==> marked@[self.edges@[j].1 as int],
                    forall|j: int| 0 <= j < k && (#[trigger] self.edges@[j]).0 == v ==> marked@[self.edges@[j].1 as int],
                decreases self.edges@.len() - k,
            {
                let (a, b) = self.edges[k];
                if a == v && !marked[b] {
                    proof {
                        let wv = wit[v as int];
                        assert(iedge(self.edges@, wv.last(), b as int)) by {
                            assert(self.edges@[k as int].0 == v && self.edges@[k as int].1 == b);
                        }
                        lemma_iwalk_push(self.edges@, wv, b as int);
                        wit = wit.update(b as int, wv.push(b as int));
                    }
                    marked.set(b, true);
                }
                k = k + 1;
            }
        }
        proof {
            assert forall|w: Seq<int>| iwalk(self.edges@, w) && 0 <= w[0] < n && seed@[w[0]] implies #[trigger] marked@[w.last()] by {
                lemma_closed_reach(self.edges@, n as int, seed@, marked@, done@, w);
            }
        }
        let walks: Ghost<Seq<Seq<int>>> = Ghost(wit);
        (marked, walks)
    }

    fn has_live_pred(&self, member: &Vec<bool>, done: &Vec<bool>, v: usize) -> (r: Option<usize>)
        requires
            self.wf(),
            member@.len() == self.ids@.len(),
            done@.len() == self.ids@.len(),
        ensures
            r is None <==> !live_pred(self.edges@, member@, done@, v as int),
            r matches Some(u) ==> u < self.ids@.len() && member@[u as int] && !done@[u as int] && iedge(self.edges@, u as int, v as int),
    {
        let mut k: usize = 0;
        while k < self.edges.len()
            invariant
                self.wf(),
                member@.len() == self.ids@.len(),
                done@.len() == self.ids@.len(),
                k <= self.edges@.len(),
                forall|j: int| 0 <= j < k ==> !((#[trigger] self.edges@[j]).1 == v && member@[self.edges@[j].0 as int] && !done@[self.edges@[j].0 as int]),
            decreases self.edges@.len() - k,
        {
            let (a, b) = self.edges[k];
            if b == v && member[a] && !done[a] {
                assert(self.edges@[k as int].0 == a && self.edges@[k as int].1 == v);
                return Some(a);
            }
            k = k + 1;
        }
        None
    }

    /// Either an order of the members in which every edge between them goes forward, or
    /// (`None`) a walk through members that repeats a vertex.
    #[verifier::spinoff_prover]
    #[verifier::rlimit(40)]
    fn order_within(&self, member: &Vec<bool>) -> (r: (Option<Vec<usize>>, Ghost<Seq<int>>))
        requires
            self.wf(),
            member@.len() == self.ids@.len(),
        ensures
            r.0 matches Some(order) ==> forall|i: int| 0 <= i < order@.len() ==> (#[trigger] order@[i]) < self.ids@.len() && member@[order@[i] as int],
            r.0 matches Some(order) ==> forall|i: int, j: int| 0 <= i < j < order@.len() ==> #[trigger] order@[i] != #[trigger] order@[j],
            r.0 matches Some(order) ==> forall|v: int| 0 <= v < self.ids@.len() && #[trigger] member@[v] ==> in_order(order@, v),
            r.0 matches Some(order) ==> forall|i: int, j: int| 0 <= i <= j < order@.len() ==> !iedge(self.edges@, #[trigger] order@[j] as int, #[trigger] order@[i] as int),
            r.0 is None ==> iwalk(self.edges@, r.1@) && in_range(r.1@, self.ids@.len() as int) && has_repeat(r.1@),
            r.0 is None ==> forall|k: int| 0 <= k < r.1@.len() ==> member@[#[trigger] r.1@[k]],
    {
        let n = self.ids.len();
        let mut done = all_false(n);
        let mut order: Vec<usize> = Vec::new();
        loop
            invariant
                self.wf(),
                n == self.ids@.len(),
                member@.len() == n,
                done@.len() == n,
                forall|i: int| 0 <= i < order@.len() ==> (#[trigger] order@[i]) < n && member@[order@[i] as int] && done@[order@[i] as int],
                forall|v: int| 0 <= v < n && #[trigger] done@[v] ==> member@[v] && exists|i: int| 0 <= i < order@.len() && order@[i] == v,
                forall|i: int, j: int| 0 <= i < j < order@.len() ==> #[trigger] order@[i] != #[trigger] order@[j],
                forall|i: int, j: int| 0 <= i <= j < order@.len() ==> !iedge(self.edges@, #[trigger] order@[j] as int, #[trigger] order@[i] as int),
                forall|u: int| 0 <= u < n && #[trigger] done@[u] ==> !live_pred(self.edges@, member@, done@, u),
            ensures
                forall|v: int| 0 <= v < n && #[trigger] member@[v] && !done@[v] ==> live_pred(self.edges@, member@, done@, v),
            decreases count_false(done@),
        {
            let mut v: usize = 0;
            let mut ready: bool = false;
            while v < n
                invariant_except_break
                    !ready,
                invariant
                    self.wf(),
                    n == self.ids@.len(),
                    member@.len() == n,
                    done@.len() == n,
                    v <= n,
                    forall|u: int| 0 <= u < v && #[trigger] member@[u] && !done@[u] ==> live_pred(self.edges@, member@, done@, u),
                ensures
                    ready ==> v < n && member@[v as int] && !done@[v as int] && !live_pred(self.edges@, member@, done@, v as int),
                    !ready ==> v == n,
                decreases n - v,
            {
                if member[v] && !done[v] && self.has_live_pred(member, &done, v).is_none() {
                    ready = true;
                    break;
                }
                v = v + 1;
            }
            if !ready {
                break;
            }
            assert(v < n && member@[v as int] && !done@[v as int] && !live_pred(self.edges@, member@, done@, v as int));
            let ghost old_done = done@;
            let ghost old_order = order@;
            proof {
                lemma_count_false_set(done@, v as int);
            }
            done.set(v, true);
            order.push(v);
            proof {
                assert forall|u: int| 0 <= u < n && #[trigger] done@[u] implies !live_pred(self.edges@, member@, done@, u) by {
                    if live_pred(self.edges@, member@, done@, u) {
                        let k = choose|k: int| 0 <= k < self.edges@.len() && (#[trigger] self.edges@[k]).1 == u && member@[self.edges@[k].0 as int] && !done@[self.edges@[k].0 as int];
                        assert(!old_done[self.edges@[k].0 as int]);
                        assert(live_pred(self.edges@, member@, old_done, u));
                    }
                }
                assert forall|i: int, j: int| 0 <= i <= j < order@.len() implies !iedge(self.edges@, #[trigger] order@[j] as int, #[trigger] order@[i] as int) by {
                    if j == old_order.len() {
                        let x = order@[i] as int;
                        if iedge(self.edges@, v as int, x) {
                            let k = choose|k: int| 0 <= k < self.edges@.len() && (#[trigger] self.edges@[k]).0 == v && self.edges@[k].1 == x;
                            if i < j {
                                assert(old_done[x]);
                                assert(live_pred(self.edges@, member@, old_done, x));
                            } else {
                                assert(live_pred(self.edges@, member@, old_done, v as int));
                            }
                        }
                    } else {
                        assert(order@[i] == old_order[i] && order@[j] == old_order[j]);
                    }
                }
                assert forall|w: int| 0 <= w < n && #[trigger] done@[w] implies member@[w] && exists|i: int| 0 <= i < order@.len() && order@[i] == w by {
                    if w != v as int {
                        assert(old_done[w]);
                        let i = choose|i: int| 0 <= i < old_order.len() && old_order[i] == w;
                        assert(order@[i] == w);
                    } else {
                        assert(order@[old_order.len() as int] == w);
                    }
                }
                assert forall|i: int, j: int| 0 <= i < j < order@.len() implies #[trigger] order@[i] != #[trigger] order@[j] by {
                    if j == old_order.len() {
                        assert(old_done[order@[i] as int]);
                    }
                }
            }
        }
        // Every member left over has a live predecessor; if one is left, walk backwards
        // through them until a vertex comes round again.
        let mut v0: usize = 0;
        while v0 < n && !(member[v0] && !done[v0])
            invariant
                v0 <= n,
                member@.len() == n,
                done@.len() == n,
                forall|u: int| 0 <= u < v0 ==> !(#[trigger] member@[u] && !done@[u]),
            decreases n - v0,
        {
            v0 = v0 + 1;
        }
        if v0 == n {
            proof {
                assert(n == self.ids@.len());
                assert forall|v: int| 0 <= v < self.ids@.len() && #[trigger] member@[v] implies in_order(order@, v) by {
                    assert(!(member@[v] && !done@[v]));
                    assert(done@[v]);
                }
                assert(forall|i: int| 0 <= i < order@.len() ==> (#[trigger] order@[i]) < self.ids@.len() && member@[order@[i] as int]);
                assert(forall|i: int, j: int| 0 <= i < j < order@.len() ==> #[trigger] order@[i] != #[trigger] order@[j]);
                assert(forall|i: int, j: int| 0 <= i <= j < order@.len() ==> !iedge(self.edges@, #[trigger] order@[j] as int, #[trigger] order@[i] as int));
            }
            let none: Ghost<Seq<int>> = Ghost(Seq::empty());
            return (Some(order), none);
        }
        let mut seen = all_false(n);
        seen.set(v0, true);
        let mut cur: usize = v0;
        let ghost mut back: Seq<int> = seq![v0 as int];
        proof {
            assert forall|v: int| 0 <= v < n && #[trigger] seen@[v] implies exists|i: int| 0 <= i < back.len() && back[i] == v by {
                if v != v0 as int {
                    assert(!seen@[v]);
                }
                assert(back[0] == v);
            }
        }
        loop
            invariant
                self.wf(),
                n == self.ids@.len(),
                member@.len() == n,
                done@.len() == n,
                seen@.len() == n,
                forall|v: int| 0 <= v < n && #[trigger] member@[v] && !done@[v] ==> live_pred(self.edges@, member@, done@, v),
                back.len() >= 1,
                back.last() == cur,
                cur < n,
                forall|i: int| 0 <= i < back.len() ==> 0 <= #[trigger] back[i] < n && member@[back[i]] && !done@[back[i]] && seen@[back[i]],
                forall|i: int| 0 <= i < back.len() - 1 ==> iedge(self.edges@, #[trigger] back[i + 1], back[i]),
                forall|v: int| 0 <= v < n && #[trigger] seen@[v] ==> exists|i: int| 0 <= i < back.len() && back[i] == v,
            decreases count_false(seen@),
        {
            let u = match self.has_live_pred(member, &done, cur) {
                Some(u) => u,
                None => {
                    assert(false);
                    0
                },
            };
            if seen[u] {
                let ghost j = choose|i: int| 0 <= i < back.len() && back[i] == u;
                let ghost cyc = lemma_back_cycle(self.edges@, back, u as int, j);
                proof {
                    assert forall|k: int| 0 <= k < cyc.len() implies 0 <= #[trigger] cyc[k] < n && member@[cyc[k]] by {
                        let i = choose|i: int| 0 <= i < back.len() && cyc[k] == back[i];
                        assert(0 <= back[i] < n && member@[back[i]]);
                    }
                }
                let witness: Ghost<Seq<int>> = Ghost(cyc);
                return (None, witness);
            }
            proof {
                lemma_count_false_set(seen@, u as int);
            }
            let ghost old_back = back;
            seen.set(u, true);
            proof {
                back = back.push(u as int);
                assert forall|i: int| 0 <= i < back.len() - 1 implies iedge(self.edges@, #[trigger] back[i + 1], back[i]) by {
                    if i < old_back.len() - 1 {
                        assert(back[i + 1] == old_back[i + 1]);
                    }
                }
                assert forall|v: int| 0 <= v < n && #[trigger] seen@[v] implies exists|i: int| 0 <= i < back.len() && back[i] == v by {
                    if v != u as int {
                        let i = choose|i: int| 0 <= i < old_back.len() && old_back[i] == v;
                        assert(back[i] == v);
                    } else {
                        assert(back[old_back.len() as int] == v);
                    }
                }
            }
            cur = u;
        }
    }

    /// The ids of the vertices of `w`.
    pub closed spec fn names(&self, w: Seq<int>) -> Seq<Seq<char>> {
        Seq::new(w.len(), |i: int| self.ids@[w[i]]@)
    }

    /// The index of the vertex with id `s` (meaningful when there is one).
    pub closed spec fn index_of(&self, s: Seq<char>) -> int {
        choose|v: int| 0 <= v < self.ids@.len() && self.ids@[v]@ == s
    }

    proof fn lemma_same_id(&self, a: int, b: int)
        requires
            self.wf(),
            0 <= a < self.ids@.len(),
            0 <= b < self.ids@.len(),
            self.ids@[a]@ == self.ids@[b]@,
        ensures
            a == b,
    {
        if a < b {
            assert(self.ids@[a]@ != self.ids@[b]@);
        } else if b < a {
            assert(self.ids@[b]@ != self.ids@[a]@);
        }
    }

    /// A vertex is a node exactly when its id is among the node ids.
    proof fn lemma_node_id(&self, v: int)
        requires
            self.wf(),
            0 <= v < self.ids@.len(),
        ensures
            self.node_ids().contains(self.ids@[v]@) == self.is_node@[v],
    {
        if self.is_node@[v] {
            let i = choose|i: int| 0 <= i < self.nodes@.len() && self.nodes@[i] == v;
            assert(self.node_ids()[i] == self.ids@[v]@);
        }
        if self.node_ids().contains(self.ids@[v]@) {
            let i = choose|i: int| 0 <= i < self.node_ids().len() && self.node_ids()[i] == self.ids@[v]@;
            self.lemma_same_id(self.nodes@[i] as int, v);
        }
    }

    /// A walk by index names a walk by id.
    proof fn lemma_names_walk(&self, w: Seq<int>)
        requires
            self.wf(),
            iwalk(self.edges@, w),
            in_range(w, self.ids@.len() as int),
        ensures
            is_walk(self.edges(), self.names(w)),
            self.names(w).len() == w.len(),
            has_repeat(w) ==> has_repeat(self.names(w)),
    {
        let nw = self.names(w);
        assert forall|k: int| 0 <= k < nw.len() - 1 implies #[trigger] step(self.edges(), nw, k) by {
            assert(istep(self.edges@, w, k));
            let j = choose|j: int| 0 <= j < self.edges@.len() && (#[trigger] self.edges@[j]).0 == w[k] && self.edges@[j].1 == w[k + 1];
            assert(self.edges()[j] == (nw[k], nw[k + 1]));
        }
        if has_repeat(w) {
            let (a, b) = choose|a: int, b: int| 0 <= a < b < w.len() && w[a] == w[b];
            assert(nw[a] == nw[b]);
        }
    }

    /// The indices of the vertices of a walk by id, of two or more vertices.
    pub closed spec fn indices(&self, w: Seq<Seq<char>>) -> Seq<int> {
        Seq::new(w.len(), |i: int| self.index_of(w[i]))
    }

    /// A walk by id of two or more vertices is a walk by index.
    proof fn lemma_index_walk(&self, w: Seq<Seq<char>>)
        requires
            self.wf(),
            is_walk(self.edges(), w),
            w.len() >= 2,
        ensures
            iwalk(self.edges@, self.indices(w)),
            in_range(self.indices(w), self.ids@.len() as int),
            forall|i: int| 0 <= i < w.len() ==> self.ids@[#[trigger] self.indices(w)[i]]@ == w[i],
            has_repeat(w) ==> has_repeat(self.indices(w)),
    {
        let iw = self.indices(w);
        assert forall|i: int| 0 <= i < w.len() implies 0 <= #[trigger] iw[i] < self.ids@.len() && self.ids@[iw[i]]@ == w[i] by {
            let k = if i < w.len() - 1 { i } else { i - 1 };
            assert(step(self.edges(), w, k));
            let j = choose|j: int| 0 <= j < self.edges().len() && #[trigger] self.edges()[j] == (w[k], w[k + 1]);
            let v = if i == k { self.edges@[j].0 as int } else { self.edges@[j].1 as int };
            assert(self.ids@[v]@ == w[i]);
        }
        assert forall|k: int| 0 <= k < iw.len() - 1 implies #[trigger] istep(self.edges@, iw, k) by {
            assert(step(self.edges(), w, k));
            let j = choose|j: int| 0 <= j < self.edges().len() && #[trigger] self.edges()[j] == (w[k], w[k + 1]);
            self.lemma_same_id(iw[k], self.edges@[j].0 as int);
            self.lemma_same_id(iw[k + 1], self.edges@[j].1 as int);
            assert(self.edges@[j].0 == iw[k] && self.edges@[j].1 == iw[k + 1]);
        }
        if has_repeat(w) {
            let (a, b) = choose|a: int, b: int| 0 <= a < b < w.len() && w[a] == w[b];
            assert(iw[a] == iw[b]);
        }
    }

    /// Walks of two or more vertices by index and by id agree.
    proof fn lemma_leads(&self, a: int, b: int)
        requires
            self.wf(),
            0 <= a < self.ids@.len(),
            0 <= b < self.ids@.len(),
        ensures
            ileads(self.edges@, a, b) <==> leads_to(self.edges(), self.ids@[a]@, self.ids@[b]@),
    {
        if ileads(self.edges@, a, b) {
            let w = choose|w: Seq<int>| iwalk(self.edges@, w) && w.len() >= 2 && w[0] == a && w.last() == b;
            lemma_iwalk_in_range(self.edges@, w, self.ids@.len() as int);
            self.lemma_names_walk(w);
            let nw = self.names(w);
            assert(nw[0] == self.ids@[a]@ && nw.last() == self.ids@[b]@);
        }
        if leads_to(self.edges(), self.ids@[a]@, self.ids@[b]@) {
            let w = choose|w: Seq<Seq<char>>| is_walk(self.edges(), w) && w.len() >= 2 && w[0] == self.ids@[a]@ && w.last() == self.ids@[b]@;
            self.lemma_index_walk(w);
            let iw = self.indices(w);
            assert(self.ids@[iw[0]]@ == w[0]);
            assert(self.ids@[iw[iw.len() - 1]]@ == w[w.len() - 1]);
            self.lemma_same_id(iw[0], a);
            self.lemma_same_id(iw[iw.len() - 1], b);
            assert(iw.last() == b);
            assert(iwalk(self.edges@, iw) && iw.len() >= 2 && iw[0] == a && iw.last() == b);
        }
    }

    /// A walk of two or more vertices starts and ends at vertices.
    proof fn lemma_leads_ends(&self, x: Seq<char>, y: Seq<char>)
        requires
            self.wf(),
            leads_to(self.edges(), x, y),
        ensures
            exists|a: int| 0 <= a < self.ids@.len() && self.ids@[a]@ == x,
            exists|b: int| 0 <= b < self.ids@.len() && self.ids@[b]@ == y,
    {
        let w = choose|w: Seq<Seq<char>>| is_walk(self.edges(), w) && w.len() >= 2 && w[0] == x && w.last() == y;
        self.lemma_index_walk(w);
        let iw = self.indices(w);
        assert(self.ids@[iw[0]]@ == x);
        assert(self.ids@[iw[w.len() - 1]]@ == y);
    }

    /// The vertices a walk of at least one edge from `u` reaches.
    fn leads_from(&self, u: usize) -> (r: Vec<bool>)
        requires
            self.wf(),
            u < self.ids@.len(),
        ensures
            r@.len() == self.ids@.len(),
            forall|v: int| 0 <= v < self.ids@.len() ==> (#[trigger] r@[v] <==> ileads(self.edges@, u as int, v)),
    {
        let n = self.ids.len();
        let mut seed = all_false(n);
        let mut k: usize = 0;
        while k < self.edges.len()
            invariant
                self.wf(),
                n == self.ids@.len(),
                seed@.len() == n,
                k <= self.edges@.len(),
                forall|v: int| 0 <= v < n ==> (#[trigger] seed@[v] <==> exists|j: int| 0 <= j < k && (#[trigger] self.edges@[j]).0 == u && self.edges@[j].1 == v),
            decreases self.edges@.len() - k,
        {
            let (a, b) = self.edges[k];
            if a == u {
                seed.set(b, true);
            }
            proof {
                assert forall|v: int| 0 <= v < n implies (#[trigger] seed@[v] <==> exists|j: int| 0 <= j < k + 1 && (#[trigger] self.edges@[j]).0 == u && self.edges@[j].1 == v) by {
                    if exists|j: int| 0 <= j < k + 1 && (#[trigger] self.edges@[j]).0 == u && self.edges@[j].1 == v {
                        let j = choose|j: int| 0 <= j < k + 1 && (#[trigger] self.edges@[j]).0 == u && self.edges@[j].1 == v;
                        if j < k {
                            assert(exists|j: int| 0 <= j < k && (#[trigger] self.edges@[j]).0 == u && self.edges@[j].1 == v);
                        }
                    }
                }
            }
            k = k + 1;
        }
        let (marked, wit) = self.reach_from(&seed);
        proof {
            assert forall|v: int| 0 <= v < n implies (#[trigger] marked@[v] <==> ileads(self.edges@, u as int, v)) by {
                if marked@[v] {
                    let w = wit@[v];
                    let p = w[0];
                    let j = choose|j: int| 0 <= j < self.edges@.len() && (#[trigger] self.edges@[j]).0 == u && self.edges@[j].1 == p;
                    let one = seq![u as int, p];
                    assert(istep(self.edges@, one, 0));
                    assert(iwalk(self.edges@, one));
                    lemma_iwalk_join(self.edges@, one, w);
                    let full = one + w.drop_first();
                    assert(full.len() >= 2);
                }
                if ileads(self.edges@, u as int, v) {
                    let w = choose|w: Seq<int>| iwalk(self.edges@, w) && w.len() >= 2 && w[0] == u as int && w.last() == v;
                    lemma_iwalk_in_range(self.edges@, w, n as int);
                    lemma_iwalk_drop_first(self.edges@, w);
                    assert(istep(self.edges@, w, 0));
                    let j = choose|j: int| 0 <= j < self.edges@.len() && (#[trigger] self.edges@[j]).0 == w[0] && self.edges@[j].1 == w[1];
                    assert(seed@[w[1]]);
                    let d = w.drop_first();
                    assert(d[0] == w[1] && d.last() == v);
                }
            }
        }
        marked
    }

    /// The ids of the flagged vertices, each once.
    fn ids_where(&self, flag: &Vec<bool>) -> (r: Vec<String>)
        requires
            self.wf(),
            flag@.len() == self.ids@.len(),
        ensures
            views(r@).no_duplicates(),
            forall|s: Seq<char>| views(r@).contains(s) <==> exists|v: int| 0 <= v < self.ids@.len() && flag@[v] && (#[trigger] self.ids@[v])@ == s,
    {
        let mut out: Vec<String> = Vec::new();
        let ghost mut from: Seq<int> = seq![];
        let mut v: usize = 0;
        while v < self.ids.len()
            invariant
                self.wf(),
                flag@.len() == self.ids@.len(),
                v <= self.ids@.len(),
                from.len() == out@.len(),
                forall|i: int| 0 <= i < out@.len() ==> 0 <= #[trigger] from[i] < v && flag@[from[i]] && out@[i]@ == self.ids@[from[i]]@,
                forall|i: int, j: int| 0 <= i < j < out@.len() ==> #[trigger] from[i] < #[trigger] from[j],
                forall|u: int| 0 <= u < v && #[trigger] flag@[u] ==> exists|i: int| 0 <= i < out@.len() && from[i] == u,
            decreases self.ids@.len() - v,
        {
            if flag[v] {
                let ghost old_from = from;
                out.push(self.ids[v].clone());
                proof {
                    from = from.push(v as int);
                    assert forall|u: int| 0 <= u < v + 1 && #[trigger] flag@[u] implies exists|i: int| 0 <= i < out@.len() && from[i] == u by {
                        if u < v {
                            let i = choose|i: int| 0 <= i < old_from.len() && old_from[i] == u;
                            assert(from[i] == u);
                        } else {
                            assert(from[old_from.len() as int] == u);
                        }
                    }
                }
            }
            v = v + 1;
        }
        proof {
            let o = views(out@);
            assert forall|i: int, j: int| 0 <= i < o.len() && 0 <= j < o.len() && i != j implies o[i] != o[j] by {
                if o[i] == o[j] {
                    self.lemma_same_id(from[i], from[j]);
                    if i < j {
                        assert(from[i] < from[j]);
                    } else {
                        assert(from[j] < from[i]);
                    }
                }
            }
            assert forall|s: Seq<char>| o.contains(s) <==> exists|v: int| 0 <= v < self.ids@.len() && flag@[v] && (#[trigger] self.ids@[v])@ == s by {
                if o.contains(s) {
                    let i = choose|i: int| 0 <= i < o.len() && o[i] == s;
                    assert(self.ids@[from[i]]@ == s);
                }
                if exists|v: int| 0 <= v < self.ids@.len() && flag@[v] && (#[trigger] self.ids@[v])@ == s {
                    let v = choose|v: int| 0 <= v < self.ids@.len() && flag@[v] && (#[trigger] self.ids@[v])@ == s;
                    let i = choose|i: int| 0 <= i < out@.len() && from[i] == v;
                    assert(o[i] == s);
                }
            }
        }
        out
    }

    /// The targets of the connections from `node_id`, in connection order.
    pub fn get_successors(&self, node_id: &str) -> (r: Vec<String>)
        requires
            self.wf(),
        ensures
            views(r@) == targets_of(self.edges(), node_id@, self.edges().len()),
    {
        let mut out: Vec<String> = Vec::new();
        let mut k: usize = 0;
        while k < self.edges.len()
            invariant
                self.wf(),
                k <= self.edges@.len(),
                views(out@) == targets_of(self.edges(), node_id@, k as nat),
            decreases self.edges@.len() - k,
        {
            let (a, b) = self.edges[k];
            if str_eq(self.ids[a].as_str(), node_id) {
                out.push(self.ids[b].clone());
            }
            assert(views(out@) =~= targets_of(self.edges(), node_id@, (k + 1) as nat));
            k = k + 1;
        }
        out
    }

    /// The sources of the connections into `node_id`, in connection order.
    pub fn get_predecessors(&self, node_id: &str) -> (r: Vec<String>)
        requires
            self.wf(),
        ensures
            views(r@) == sources_of(self.edges(), node_id@, self.edges().len()),
    {
        let mut out: Vec<String> = Vec::new();
        let mut k: usize = 0;
        while k < self.edges.len()
            invariant
                self.wf(),
                k <= self.edges@.len(),
                views(out@) == sources_of(self.edges(), node_id@, k as nat),
            decreases self.edges@.len() - k,
        {
            let (a, b) = self.edges[k];
            if str_eq(self.ids[b].as_str(), node_id) {
                out.push(self.ids[a].clone());
            }
            assert(views(out@) =~= sources_of(self.edges(), node_id@, (k + 1) as nat));
            k = k + 1;
        }
        out
    }

    /// Whether `node_id` is a node of the workflow.
    pub fn has_node(&self, node_id: &str) -> (r: bool)
        requires
            self.wf(),
        ensures
            r == self.node_ids().contains(node_id@),
    {
        let mut i: usize = 0;
        while i < self.nodes.len()
            invariant
                self.wf(),
                i <= self.nodes@.len(),
                forall|j: int| 0 <= j < i ==> self.node_ids()[j] != node_id@,
            decreases self.nodes@.len() - i,
        {
            if str_eq(self.ids[self.nodes[i]].as_str(), node_id) {
                assert(self.node_ids()[i as int] == node_id@);
                return true;
            }
            i = i + 1;
        }
        false
    }

    /// The number of distinct node ids.
    pub fn node_count(&self) -> (r: usize)
        ensures
            r == self.node_ids().len(),
    {
        self.nodes.len()
    }

    /// The number of edges: one per connection.
    pub fn edge_count(&self) -> (r: usize)
        ensures
            r == self.edges().len(),
    {
        self.edges.len()
    }

    /// Either an order of the vertices reachable from the seeds in which every edge
    /// between them goes forward, or `None` when a walk from a seed runs into a cycle.
    /// Also returns which vertices are reachable.
    fn sorted_reach(&self, seed: &Vec<bool>) -> (r: (Option<Vec<usize>>, Vec<bool>))
        requires
            self.wf(),
            seed@.len() == self.ids@.len(),
        ensures
            r.1@.len() == self.ids@.len(),
            forall|v: int| 0 <= v < self.ids@.len() ==> (#[trigger] r.1@[v] <==> ireach(self.edges@, seed@, self.ids@.len() as int, v)),
            r.0 is None <==> icycle_from(self.edges@, seed@, self.ids@.len() as int),
            r.0 matches Some(order) ==> forall|i: int| 0 <= i < order@.len() ==> (#[trigger] order@[i]) < self.ids@.len() && r.1@[order@[i] as int],
            r.0 matches Some(order) ==> forall|i: int, j: int| 0 <= i < j < order@.len() ==> #[trigger] order@[i] != #[trigger] order@[j],
            r.0 matches Some(order) ==> forall|v: int| 0 <= v < self.ids@.len() && #[trigger] r.1@[v] ==> in_order(order@, v),
            r.0 matches Some(order) ==> forall|i: int, j: int| 0 <= i <= j < order@.len() ==> !iedge(self.edges@, #[trigger] order@[j] as int, #[trigger] order@[i] as int),
    {
        let n = self.ids.len();
        let (reach, wit) = self.reach_from(seed);
        let (res, cyc) = self.order_within(&reach);
        proof {
            assert forall|v: int| 0 <= v < n implies (#[trigger] reach@[v] <==> ireach(self.edges@, seed@, n as int, v)) by {
                if reach@[v] {
                    assert(iwalk(self.edges@, wit@[v]) && in_range(wit@[v], n as int));
                }
                if ireach(self.edges@, seed@, n as int, v) {
                    let w = choose|w: Seq<int>| iwalk(self.edges@, w) && in_range(w, n as int) && seed@[w[0]] && w.last() == v;
                    assert(reach@[w.last()]);
                }
            }
            match &res {
                None => {
                    let c = cyc@;
                    let wv = wit@[c[0]];
                    lemma_iwalk_join(self.edges@, wv, c);
                    let full = wv + c.drop_first();
                    assert(in_range(full, n as int)) by {
                        assert forall|k: int| 0 <= k < full.len() implies 0 <= #[trigger] full[k] < n by {
                            if k < wv.len() {
                                assert(full[k] == wv[k]);
                            } else {
                                assert(full[k] == c[k - wv.len() + 1]);
                            }
                        }
                    }
                    let (a, b) = choose|a: int, b: int| 0 <= a < b < c.len() && c[a] == c[b];
                    let off = wv.len() - 1;
                    assert(full[off + a] == c[a]) by {
                        if a > 0 {
                            assert(full[off + a] == c.drop_first()[a - 1]);
                        }
                    }
                    assert(full[off + b] == c[b]) by {
                        assert(full[off + b] == c.drop_first()[b - 1]);
                    }
                    assert(has_repeat(full));
                    assert(seed@[full[0]]);
                },
                Some(order) => {
                    if icycle_from(self.edges@, seed@, n as int) {
                        let w = choose|w: Seq<int>| iwalk(self.edges@, w) && in_range(w, n as int) && seed@[w[0]] && has_repeat(w);
                        assert forall|k: int| 0 <= k < w.len() implies #[trigger] in_order(order@, w[k]) by {
                            lemma_iwalk_prefix(self.edges@, w, k + 1);
                            let p = w.subrange(0, k + 1);
                            assert(p.last() == w[k]);
                            assert(reach@[p.last()]);
                        }
                        lemma_forward_no_repeat(self.edges@, order@, w);
                    }
                },
            }
        }
        (res, reach)
    }

    /// Cycles from a node agree by index and by id.
    proof fn lemma_cycle_ids(&self)
        requires
            self.wf(),
        ensures
            icycle_from(self.edges@, self.is_node@, self.ids@.len() as int) <==> cycle_from_node(self.edges(), self.node_ids()),
    {
        let n = self.ids@.len() as int;
        if icycle_from(self.edges@, self.is_node@, n) {
            let w = choose|w: Seq<int>| iwalk(self.edges@, w) && in_range(w, n) && self.is_node@[w[0]] && has_repeat(w);
            self.lemma_names_walk(w);
            self.lemma_node_id(w[0]);
            assert(self.names(w)[0] == self.ids@[w[0]]@);
        }
        if cycle_from_node(self.edges(), self.node_ids()) {
            let w = choose|w: Seq<Seq<char>>| is_walk(self.edges(), w) && self.node_ids().contains(w[0]) && has_repeat(w);
            assert(w.len() >= 2);
            self.lemma_index_walk(w);
            let iw = self.indices(w);
            self.lemma_node_id(iw[0]);
        }
    }

    /// Whether a walk from some node runs into a cycle.
    pub fn has_cycle(&self) -> (r: bool)
        requires
            self.wf(),
        ensures
            r == cycle_from_node(self.edges(), self.node_ids()),
    {
        let (res, _) = self.sorted_reach(&self.is_node);
        proof {
            self.lemma_cycle_ids();
        }
        res.is_none()
    }

    /// An order of the node ids in which every connection between two nodes goes
    /// forward. Fails with `CircularDependency` when a walk from a node runs into a cycle,
    /// or when a connection enters a node from an id that is not a node.
    pub fn topological_sort(&self) -> (r: Result<Vec<String>, WorkflowError>)
        requires
            self.wf(),
        ensures
            r is Err <==> cycle_from_node(self.edges(), self.node_ids()) || has_outside_source(self.edges(), self.node_ids()),
            r matches Err(e) ==> e is CircularDependency,
            r matches Ok(order) ==> {
                let o = views(order@);
                &&& o.no_duplicates()
                &&& forall|s: Seq<char>| o.contains(s) <==> self.node_ids().contains(s)
                &&& forall|i: int, j: int| 0 <= i <= j < o.len() ==> !is_edge(self.edges(), #[trigger] o[j], #[trigger] o[i])
            },
    {
        if self.has_cycle() {
            return Err(WorkflowError::CircularDependency);
        }
        let mut k: usize = 0;
        while k < self.edges.len()
            invariant
                self.wf(),
                k <= self.edges@.len(),
                forall|j: int| 0 <= j < k ==> !(self.is_node@[(#[trigger] self.edges@[j]).1 as int] && !self.is_node@[self.edges@[j].0 as int]),
            decreases self.edges@.len() - k,
        {
            let (a, b) = self.edges[k];
            if self.is_node[b] && !self.is_node[a] {
                proof {
                    self.lemma_node_id(a as int);
                    self.lemma_node_id(b as int);
                    assert(self.edges()[k as int] == (self.ids@[a as int]@, self.ids@[b as int]@));
                }
                return Err(WorkflowError::CircularDependency);
            }
            k = k + 1;
        }
        proof {
            if has_outside_source(self.edges(), self.node_ids()) {
                let j = choose|j: int| 0 <= j < self.edges().len() && self.node_ids().contains((#[trigger] self.edges()[j]).1) && !self.node_ids().contains(self.edges()[j].0);
                self.lemma_node_id(self.edges@[j].0 as int);
                self.lemma_node_id(self.edges@[j].1 as int);
            }
        }
        let (res, cyc) = self.order_within(&self.is_node);
        match res {
            None => {
                proof {
                    let c = cyc@;
                    self.lemma_names_walk(c);
                    self.lemma_node_id(c[0]);
                    assert(self.names(c)[0] == self.ids@[c[0]]@);
                    assert(cycle_from_node(self.edges(), self.node_ids()));
                }
                Err(WorkflowError::CircularDependency)
            },
            Some(order) => {
                let mut out: Vec<String> = Vec::new();
                let mut i: usize = 0;
                while i < order.len()
                    invariant
                        self.wf(),
                        i <= order@.len(),
                        forall|j: int| 0 <= j < order@.len() ==> (#[trigger] order@[j]) < self.ids@.len(),
                        out@.len() == i,
                        forall|j: int| 0 <= j < i ==> (#[trigger] out@[j])@ == self.ids@[order@[j] as int]@,
                    decreases order@.len() - i,
                {
                    out.push(self.ids[order[i]].clone());
                    i = i + 1;
                }
                proof {
                    let o = views(out@);
                    assert forall|a: int, b: int| 0 <= a < o.len() && 0 <= b < o.len() && a != b implies o[a] != o[b] by {
                        if o[a] == o[b] {
                            self.lemma_same_id(order@[a] as int, order@[b] as int);
                        }
                    }
                    assert forall|s: Seq<char>| o.contains(s) <==> self.node_ids().contains(s) by {
                        if o.contains(s) {
                            let a = choose|a: int| 0 <= a < o.len() && o[a] == s;
                            self.lemma_node_id(order@[a] as int);
                        }
                        if self.node_ids().contains(s) {
                            let a = choose|a: int| 0 <= a < self.node_ids().len() && self.node_ids()[a] == s;
                            let v = self.nodes@[a] as int;
                            assert(in_order(order@, v));
                            let b = choose|b: int| 0 <= b < order@.len() && order@[b] == v;
                            assert(o[b] == s);
                        }
                    }
                    assert forall|a: int, b: int| 0 <= a <= b < o.len() implies !is_edge(self.edges(), #[trigger] o[b], #[trigger] o[a]) by {
                        if is_edge(self.edges(), o[b], o[a]) {
                            let j = choose|j: int| 0 <= j < self.edges().len() && #[trigger] self.edges()[j] == (o[b], o[a]);
                            self.lemma_same_id(self.edges@[j].0 as int, order@[b] as int);
                            self.lemma_same_id(self.edges@[j].1 as int, order@[a] as int);
                            assert(iedge(self.edges@, order@[b] as int, order@[a] as int));
                        }
                    }
                }
                Ok(out)
            },
        }
    }

    /// The ids from which a walk of at least one edge leads to `node_id`: every vertex
    /// that must run before it.
    pub fn get_ancestors(&self, node_id: &str) -> (r: Vec<String>)
        requires
            self.wf(),
        ensures
            views(r@).no_duplicates(),
            forall|s: Seq<char>| views(r@).contains(s) <==> leads_to(self.edges(), s, node_id@),
    {
        let n = self.ids.len();
        match self.find(node_id) {
            None => {
                let out: Vec<String> = Vec::new();
                proof {
                    assert forall|s: Seq<char>| views(out@).contains(s) <==> leads_to(self.edges(), s, node_id@) by {
                        if leads_to(self.edges(), s, node_id@) {
                            self.lemma_leads_ends(s, node_id@);
                        }
                    }
                }
                out
            },
            Some(t) => {
                let mut flag = all_false(n);
                let mut u: usize = 0;
                while u < n
                    invariant
                        self.wf(),
                        n == self.ids@.len(),
                        t < n,
                        flag@.len() == n,
                        u <= n,
                        forall|v: int| 0 <= v < n ==> (#[trigger] flag@[v] <==> v < u && ileads(self.edges@, v, t as int)),
                    decreases n - u,
                {
                    let reach = self.leads_from(u);
                    if reach[t] {
                        flag.set(u, true);
                    }
                    u = u + 1;
                }
                let out = self.ids_where(&flag);
                proof {
                    assert forall|s: Seq<char>| views(out@).contains(s) <==> leads_to(self.edges(), s, node_id@) by {
                        if views(out@).contains(s) {
                            let v = choose|v: int| 0 <= v < n && flag@[v] && (#[trigger] self.ids@[v])@ == s;
                            self.lemma_leads(v, t as int);
                        }
                        if leads_to(self.edges(), s, node_id@) {
                            self.lemma_leads_ends(s, node_id@);
                            let v = choose|v: int| 0 <= v < n && self.ids@[v]@ == s;
                            self.lemma_leads(v, t as int);
                            assert(flag@[v]);
                        }
                    }
                }
                out
            },
        }
    }

    /// `node_id` and every id that must run before it.
    pub fn get_execution_subgraph(&self, target_node: &str) -> (r: Vec<String>)
        requires
            self.wf(),
        ensures
            views(r@).no_duplicates(),
            forall|s: Seq<char>| views(r@).contains(s) <==> s == target_node@ || leads_to(self.edges(), s, target_node@),
    {
        let n = self.ids.len();
        match self.find(target_node) {
            None => {
                let mut out: Vec<String> = Vec::new();
                out.push(owned(target_node));
                proof {
                    assert(views(out@) =~= seq![target_node@]);
                    assert forall|s: Seq<char>| views(out@).contains(s) <==> s == target_node@ || leads_to(self.edges(), s, target_node@) by {
                        if leads_to(self.edges(), s, target_node@) {
                            self.lemma_leads_ends(s, target_node@);
                        }
                        if s == target_node@ {
                            assert(views(out@)[0] == s);
                        }
                    }
                }
                out
            },
            Some(t) => {
                let mut flag = all_false(n);
                let mut u: usize = 0;
                while u < n
                    invariant
                        self.wf(),
                        n == self.ids@.len(),
                        t < n,
                        flag@.len() == n,
                        u <= n,
                        forall|v: int| 0 <= v < n ==> (#[trigger] flag@[v] <==> v < u && (v == t || ileads(self.edges@, v, t as int))),
                    decreases n - u,
                {
                    if u == t {
                        flag.set(u, true);
                    } else {
                        let reach = self.leads_from(u);
                        if reach[t] {
                            flag.set(u, true);
                        }
                    }
                    u = u + 1;
                }
                let out = self.ids_where(&flag);
                proof {
                    assert forall|s: Seq<char>| views(out@).contains(s) <==> s == target_node@ || leads_to(self.edges(), s, target_node@) by {
                        if views(out@).contains(s) {
                            let v = choose|v: int| 0 <= v < n && flag@[v] && (#[trigger] self.ids@[v])@ == s;
                            self.lemma_leads(v, t as int);
                        }
                        if s == target_node@ {
                            assert(flag@[t as int]);
                        }
                        if leads_to(self.edges(), s, target_node@) {
                            self.lemma_leads_ends(s, target_node@);
                            let v = choose|v: int| 0 <= v < n && self.ids@[v]@ == s;
                            self.lemma_leads(v, t as int);
                            assert(flag@[v]);
                        }
                    }
                }
                out
            },
        }
    }

    /// The ids a walk of at least one edge from `node_id` reaches: every vertex that
    /// comes after it.
    pub fn get_descendants(&self, node_id: &str) -> (r: Vec<String>)
        requires
            self.wf(),
        ensures
            views(r@).no_duplicates(),
            forall|s: Seq<char>| views(r@).contains(s) <==> leads_to(self.edges(), node_id@, s),
    {
        match self.find(node_id) {
            None => {
                let out: Vec<String> = Vec::new();
                proof {
                    assert forall|s: Seq<char>| views(out@).contains(s) <==> leads_to(self.edges(), node_id@, s) by {
                        if leads_to(self.edges(), node_id@, s) {
                            self.lemma_leads_ends(node_id@, s);
                        }
                    }
                }
                out
            },
            Some(t) => {
                let reach = self.leads_from(t);
                let out = self.ids_where(&reach);
                proof {
                    assert forall|s: Seq<char>| views(out@).contains(s) <==> leads_to(self.edges(), node_id@, s) by {
                        if views(out@).contains(s) {
                            let v = choose|v: int| 0 <= v < self.ids@.len() && reach@[v] && (#[trigger] self.ids@[v])@ == s;
                            self.lemma_leads(t as int, v);
                        }
                        if leads_to(self.edges(), node_id@, s) {
                            self.lemma_leads_ends(node_id@, s);
                            let v = choose|v: int| 0 <= v < self.ids@.len() && self.ids@[v]@ == s;
                            self.lemma_leads(t as int, v);
                            assert(reach@[v]);
                        }
                    }
                }
                out
            },
        }
    }

    /// The graph of a workflow: its nodes, and an edge per connection.
    pub fn from_workflow(workflow: &Workflow) -> (r: Self)
        ensures
            r.wf(),
            r.node_ids().no_duplicates(),
            forall|s: Seq<char>| r.node_ids().contains(s) <==> exists|i: int| 0 <= i < workflow.nodes@.len() && (#[trigger] workflow.nodes@[i]).id@ == s,
            r.edges().len() == workflow.connections@.len(),
            forall|k: int| 0 <= k < workflow.connections@.len() ==> #[trigger] r.edges()[k] == (workflow.connections@[k].source_node@, workflow.connections@[k].target_node@),
    {
        let mut g = DirectedGraph { ids: Vec::new(), is_node: Vec::new(), nodes: Vec::new(), edges: Vec::new() };
        let mut i: usize = 0;
        while i < workflow.nodes.len()
            invariant
                g.wf(),
                g.edges@.len() == 0,
                i <= workflow.nodes@.len(),
                forall|v: int| 0 <= v < g.ids@.len() ==> #[trigger] g.is_node@[v],
                g.nodes@.len() == g.ids@.len(),
                forall|j: int| 0 <= j < g.nodes@.len() ==> #[trigger] g.nodes@[j] == j,
                forall|s: Seq<char>| #![trigger has_id(g.ids@, g.ids@.len() as int, s)] #![trigger node_named(workflow.nodes@, i as int, s)]
                    has_id(g.ids@, g.ids@.len() as int, s) <==> node_named(workflow.nodes@, i as int, s),
            decreases workflow.nodes@.len() - i,
        {
            let ghost before = g.ids@;
            let v = g.intern(&workflow.nodes[i].id);
            if !g.is_node[v] {
                g.is_node.set(v, true);
                g.nodes.push(v);
            }
            proof {
                assert forall|s: Seq<char>| #![trigger has_id(g.ids@, g.ids@.len() as int, s)] #![trigger node_named(workflow.nodes@, i + 1, s)]
                    has_id(g.ids@, g.ids@.len() as int, s) <==> node_named(workflow.nodes@, i + 1, s) by {
                    assert(has_id(before, before.len() as int, s) <==> node_named(workflow.nodes@, i as int, s));
                    if node_named(workflow.nodes@, i + 1, s) {
                        let j = choose|j: int| 0 <= j < i + 1 && (#[trigger] workflow.nodes@[j]).id@ == s;
                        if j < i {
                            let w = choose|w: int| 0 <= w < before.len() && (#[trigger] before[w])@ == s;
                            assert(g.ids@[w] == before[w]);
                        } else {
                            assert(g.ids@[v as int]@ == s);
                        }
                    }
                    if has_id(g.ids@, g.ids@.len() as int, s) {
                        let w = choose|w: int| 0 <= w < g.ids@.len() && (#[trigger] g.ids@[w])@ == s;
                        if w < before.len() {
                            assert(g.ids@[w] == before[w]);
                        } else {
                            assert(w == v);
                            assert(workflow.nodes@[i as int].id@ == s);
                        }
                    }
                }
                assert forall|w: int| 0 <= w < g.ids@.len() && #[trigger] g.is_node@[w] implies exists|j: int| 0 <= j < g.nodes@.len() && g.nodes@[j] == w by {
                    assert(g.nodes@[w] == w);
                }
            }
            i = i + 1;
        }
        let ghost node_list = g.nodes@;
        let ghost node_count = g.ids@.len();
        let mut k: usize = 0;
        while k < workflow.connections.len()
            invariant
                g.wf(),
                k <= workflow.connections@.len(),
                g.nodes@ == node_list,
                g.ids@.len() >= node_count,
                node_list.len() == node_count,
                forall|j: int| 0 <= j < node_list.len() ==> #[trigger] node_list[j] == j,
                forall|v: int| 0 <= v < g.ids@.len() ==> (#[trigger] g.is_node@[v] <==> v < node_count),
                forall|s: Seq<char>| #![trigger has_id(g.ids@, node_count as int, s)] #![trigger node_named(workflow.nodes@, workflow.nodes@.len() as int, s)]
                    has_id(g.ids@, node_count as int, s) <==> node_named(workflow.nodes@, workflow.nodes@.len() as int, s),
                g.edges@.len() == k,
                forall|j: int| 0 <= j < k ==> #[trigger] g.edges()[j] == (workflow.connections@[j].source_node@, workflow.connections@[j].target_node@),
            decreases workflow.connections@.len() - k,
        {
            let ghost ids_before = g.ids@;
            let ghost edges_before = g.edges();
            let ghost idx_before = g.edges@;
            let a = g.intern(&workflow.connections[k].source_node);
            let b = g.intern(&workflow.connections[k].target_node);
            let ghost nodes_mid = g.nodes@;
            let ghost is_node_mid = g.is_node@;
            assert(forall|v: int| 0 <= v < g.ids@.len() && #[trigger] is_node_mid[v] ==> exists|i: int| 0 <= i < nodes_mid.len() && nodes_mid[i] == v);
            g.edges.push((a, b));
            proof {
                assert forall|j: int| 0 <= j < g.edges@.len() implies (#[trigger] g.edges@[j]).0 < g.ids@.len() && g.edges@[j].1 < g.ids@.len() by {
                    if j < k {
                        assert(g.edges@[j] == idx_before[j]);
                    }
                }
                assert(g.is_node@.len() == g.ids@.len());
                assert(forall|a: int, b: int| 0 <= a < b < g.ids@.len() ==> #[trigger] g.ids@[a]@ != #[trigger] g.ids@[b]@);
                assert(forall|i: int| 0 <= i < g.nodes@.len() ==> (#[trigger] g.nodes@[i]) < g.ids@.len() && g.is_node@[g.nodes@[i] as int]);
                assert(forall|a: int, b: int| 0 <= a < b < g.nodes@.len() ==> #[trigger] g.nodes@[a] != #[trigger] g.nodes@[b]);
                assert(g.nodes@ == nodes_mid && g.is_node@ == is_node_mid);
                assert forall|j: int| 0 <= j < k + 1 implies #[trigger] g.edges()[j] == (workflow.connections@[j].source_node@, workflow.connections@[j].target_node@) by {
                    if j < k {
                        assert(edges_before[j] == (workflow.connections@[j].source_node@, workflow.connections@[j].target_node@));
                        assert(g.edges@[j] == idx_before[j]);
                        assert(g.ids@[g.edges@[j].0 as int] == ids_before[g.edges@[j].0 as int]);
                        assert(g.ids@[g.edges@[j].1 as int] == ids_before[g.edges@[j].1 as int]);
                    }
                }
                assert forall|s: Seq<char>| #![trigger has_id(g.ids@, node_count as int, s)] #![trigger node_named(workflow.nodes@, workflow.nodes@.len() as int, s)]
                    has_id(g.ids@, node_count as int, s) <==> node_named(workflow.nodes@, workflow.nodes@.len() as int, s) by {
                    assert(has_id(ids_before, node_count as int, s) <==> node_named(workflow.nodes@, workflow.nodes@.len() as int, s));
                    if has_id(ids_before, node_count as int, s) {
                        let v = choose|v: int| 0 <= v < node_count && (#[trigger] ids_before[v])@ == s;
                        assert(g.ids@[v] == ids_before[v]);
                    }
                    if has_id(g.ids@, node_count as int, s) {
                        let v = choose|v: int| 0 <= v < node_count && (#[trigger] g.ids@[v])@ == s;
                        assert(g.ids@[v] == ids_before[v]);
                    }
                }
            }
            k = k + 1;
        }
        proof {
            assert(g.edges().len() == workflow.connections@.len());
            assert forall|a: int, b: int| 0 <= a < b < g.node_ids().len() implies g.node_ids()[a] != g.node_ids()[b] by {
                assert(g.nodes@[a] == a && g.nodes@[b] == b);
            }
            assert forall|s: Seq<char>| g.node_ids().contains(s) <==> exists|i: int| 0 <= i < workflow.nodes@.len() && (#[trigger] workflow.nodes@[i]).id@ == s by {
                if g.node_ids().contains(s) {
                    let j = choose|j: int| 0 <= j < g.node_ids().len() && g.node_ids()[j] == s;
                    assert(g.nodes@[j] == j);
                    assert(g.ids@[j]@ == s);
                    assert(has_id(g.ids@, node_count as int, s));
                    assert(node_named(workflow.nodes@, workflow.nodes@.len() as int, s));
                }
                if exists|i: int| 0 <= i < workflow.nodes@.len() && (#[trigger] workflow.nodes@[i]).id@ == s {
                    assert(node_named(workflow.nodes@, workflow.nodes@.len() as int, s));
                    let v = choose|v: int| 0 <= v < node_count && (#[trigger] g.ids@[v])@ == s;
                    assert(g.nodes@[v] == v);
                    assert(g.node_ids()[v] == s);
                }
            }
        }
        g
    }
}

impl DirectedGraph {
    /// Walks from vertex `t` agree by index and by id.
    proof fn lemma_reach_ids(&self, t: int, v: int)
        requires
            self.wf(),
            0 <= t < self.ids@.len(),
            0 <= v < self.ids@.len(),
        ensures
            ireach(self.edges@, Seq::new(self.ids@.len(), |u: int| u == t), self.ids@.len() as int, v)
                <==> reaches(self.edges(), self.ids@[t]@, self.ids@[v]@),
    {
        let n = self.ids@.len() as int;
        let seed = Seq::new(self.ids@.len(), |u: int| u == t);
        if ireach(self.edges@, seed, n, v) {
            let w = choose|w: Seq<int>| iwalk(self.edges@, w) && in_range(w, n) && seed[w[0]] && w.last() == v;
            self.lemma_names_walk(w);
            let nw = self.names(w);
            assert(nw[0] == self.ids@[t]@ && nw.last() == self.ids@[v]@);
        }
        if reaches(self.edges(), self.ids@[t]@, self.ids@[v]@) {
            let w = choose|w: Seq<Seq<char>>| is_walk(self.edges(), w) && w[0] == self.ids@[t]@ && w.last() == self.ids@[v]@;
            if w.len() == 1 {
                self.lemma_same_id(t, v);
                let iw = seq![t];
                assert(iwalk(self.edges@, iw) && in_range(iw, n) && seed[iw[0]] && iw.last() == v);
            } else {
                self.lemma_index_walk(w);
                let iw = self.indices(w);
                assert(self.ids@[iw[0]]@ == w[0]);
                assert(self.ids@[iw[iw.len() - 1]]@ == w[w.len() - 1]);
                self.lemma_same_id(iw[0], t);
                self.lemma_same_id(iw[iw.len() - 1], v);
                assert(iw.last() == v);
            }
        }
    }

    /// Cycles from vertex `t` agree by index and by id.
    proof fn lemma_cycle_from_ids(&self, t: int)
        requires
            self.wf(),
            0 <= t < self.ids@.len(),
        ensures
            icycle_from(self.edges@, Seq::new(self.ids@.len(), |u: int| u == t), self.ids@.len() as int)
                <==> cycle_from(self.edges(), self.ids@[t]@),
    {
        let n = self.ids@.len() as int;
        let seed = Seq::new(self.ids@.len(), |u: int| u == t);
        if icycle_from(self.edges@, seed, n) {
            let w = choose|w: Seq<int>| iwalk(self.edges@, w) && in_range(w, n) && seed[w[0]] && has_repeat(w);
            self.lemma_names_walk(w);
            assert(self.names(w)[0] == self.ids@[t]@);
        }
        if cycle_from(self.edges(), self.ids@[t]@) {
            let w = choose|w: Seq<Seq<char>>| is_walk(self.edges(), w) && w[0] == self.ids@[t]@ && has_repeat(w);
            assert(w.len() >= 2);
            self.lemma_index_walk(w);
            let iw = self.indices(w);
            assert(self.ids@[iw[0]]@ == w[0]);
            self.lemma_same_id(iw[0], t);
        }
    }
}

impl Workflow {
    /// The directed graph of this workflow.
    pub fn build_graph(&self) -> (r: DirectedGraph)
        ensures
            r.wf(),
            r.node_ids().no_duplicates(),
            forall|s: Seq<char>| r.node_ids().contains(s) <==> exists|i: int| 0 <= i < self.nodes@.len() && (#[trigger] self.nodes@[i]).id@ == s,
            r.edges() == connection_edges(self.connections@),
    {
        let g = DirectedGraph::from_workflow(self);
        assert(g.edges() =~= connection_edges(self.connections@));
        g
    }

    /// Fails with `CircularDependency` when a walk from a node runs into a cycle.
    pub fn validate_no_cycles(&self) -> (r: Result<(), WorkflowError>)
        ensures
            r is Ok <==> !cycle_from_node(connection_edges(self.connections@), self.build_graph_node_ids()),
            r matches Err(e) ==> e is CircularDependency,
    {
        let g = self.build_graph();
        proof {
            self.lemma_node_ids(g);
        }
        if g.has_cycle() {
            Err(WorkflowError::CircularDependency)
        } else {
            Ok(())
        }
    }

    /// The distinct node ids, in the order they first occur.
    pub open spec fn build_graph_node_ids(&self) -> Seq<Seq<char>> {
        first_ids(self.nodes@, self.nodes@.len() as nat)
    }

    proof fn lemma_node_ids(&self, g: DirectedGraph)
        requires
            g.node_ids().no_duplicates(),
            forall|s: Seq<char>| g.node_ids().contains(s) <==> exists|i: int| 0 <= i < self.nodes@.len() && (#[trigger] self.nodes@[i]).id@ == s,
        ensures
            forall|s: Seq<char>| g.node_ids().contains(s) <==> self.build_graph_node_ids().contains(s),
    {
        lemma_first_ids(self.nodes@, self.nodes@.len() as nat);
    }

    /// An order of the node ids in which every connection between two nodes goes forward
    /// (see `DirectedGraph::topological_sort`).
    pub fn get_execution_order(&self) -> (r: Result<Vec<String>, WorkflowError>)
        ensures
            r is Err <==> cycle_from_node(connection_edges(self.connections@), self.build_graph_node_ids())
                || has_outside_source(connection_edges(self.connections@), self.build_graph_node_ids()),
            r matches Err(e) ==> e is CircularDependency,
            r matches Ok(order) ==> {
                let o = views(order@);
                &&& o.no_duplicates()
                &&& forall|s: Seq<char>| o.contains(s) <==> self.build_graph_node_ids().contains(s)
                &&& forall|i: int, j: int| 0 <= i <= j < o.len() ==> !is_edge(connection_edges(self.connections@), #[trigger] o[j], #[trigger] o[i])
            },
    {
        let g = self.build_graph();
        proof {
            self.lemma_node_ids(g);
            lemma_same_elements_cycle(connection_edges(self.connections@), g.node_ids(), self.build_graph_node_ids());
        }
        g.topological_sort()
    }

    /// `target_node` and every id that must run before it.
    pub fn get_partial_execution_nodes(&self, target_node: &str) -> (r: Vec<String>)
        ensures
            views(r@).no_duplicates(),
            forall|s: Seq<char>| views(r@).contains(s) <==> s == target_node@ || leads_to(connection_edges(self.connections@), s, target_node@),
    {
        let g = self.build_graph();
        g.get_execution_subgraph(target_node)
    }

    /// The nodes reachable from the trigger node, each once (the first node with its id),
    /// in reverse topological order: a node comes after every node it leads to, so no
    /// connection between two of them goes forward. Fails with
    /// `NoTriggerNode` without a trigger node and with `CircularDependency` when a walk
    /// from the trigger runs into a cycle.
    pub fn topological_sort(&self) -> (r: Result<Vec<&Node>, WorkflowError>)
        ensures
            (forall|i: int| 0 <= i < self.nodes@.len() ==> (#[trigger] self.nodes@[i]).node_type != NodeType::Trigger)
                ==> (r matches Err(e) && e is NoTriggerNode),
            forall|t: int| #[trigger] first_trigger(self.nodes@, t) ==> {
                let e = connection_edges(self.connections@);
                let start = self.nodes@[t].id@;
                &&& r is Err <==> cycle_from(e, start)
                &&& r matches Err(x) ==> x is CircularDependency
                &&& r matches Ok(list) ==> {
                    &&& forall|k: int| 0 <= k < list@.len() ==> exists|p: int| first_node_with_id(self.nodes@, (#[trigger] list@[k]).id@, p) && self.nodes@[p] == *list@[k]
                    &&& forall|a: int, b: int| 0 <= a < b < list@.len() ==> (#[trigger] list@[a]).id@ != (#[trigger] list@[b]).id@
                    &&& forall|s: Seq<char>| (exists|k: int| 0 <= k < list@.len() && (#[trigger] list@[k]).id@ == s) <==> (
                        reaches(e, start, s) && exists|i: int| 0 <= i < self.nodes@.len() && (#[trigger] self.nodes@[i]).id@ == s)
                    &&& forall|a: int, b: int| 0 <= a <= b < list@.len() ==> !is_edge(e, (#[trigger] list@[a]).id@, (#[trigger] list@[b]).id@)
                    &&& forall|a: int, b: int| 0 <= a <= b < list@.len() ==> !leads_to(e, (#[trigger] list@[a]).id@, (#[trigger] list@[b]).id@)
                }
            },
    {
        let trigger = match self.find_trigger_node() {
            Some(t) => t,
            None => {
                return Err(WorkflowError::NoTriggerNode);
            },
        };
        let ghost ti = choose|i: int| first_trigger(self.nodes@, i) && self.nodes@[i] == *trigger;
        let g = self.build_graph();
        let n = g.ids.len();
        let t = match g.find(trigger.id.as_str()) {
            Some(t) => t,
            None => {
                proof {
                    assert(self.nodes@[ti].id@ == trigger.id@);
                    assert(g.node_ids().contains(trigger.id@));
                    let i = choose|i: int| 0 <= i < g.node_ids().len() && g.node_ids()[i] == trigger.id@;
                    assert(g.ids@[g.nodes@[i] as int]@ == trigger.id@);
                }
                return Err(WorkflowError::NoTriggerNode);
            },
        };
        let mut seed = all_false(n);
        seed.set(t, true);
        let ghost seed_spec = Seq::new(n as nat, |u: int| u == t);
        assert(seed@ =~= seed_spec);
        let (res, reach) = g.sorted_reach(&seed);
        proof {
            assert forall|x: int| #[trigger] first_trigger(self.nodes@, x) implies x == ti by {
                if x < ti {
                    assert(self.nodes@[x].node_type != NodeType::Trigger);
                } else if ti < x {
                    assert(self.nodes@[ti].node_type != NodeType::Trigger);
                }
            }
            g.lemma_cycle_from_ids(t as int);
        }
        let order = match res {
            None => {
                return Err(WorkflowError::CircularDependency);
            },
            Some(order) => order,
        };
        // Descendants first: the reverse of the order.
        let mut rev: Vec<usize> = Vec::new();
        let mut q: usize = order.len();
        while q > 0
            invariant
                q <= order@.len(),
                rev@.len() == order@.len() - q,
                forall|k: int| 0 <= k < rev@.len() ==> #[trigger] rev@[k] == order@[order@.len() - 1 - k],
            decreases q,
        {
            q = q - 1;
            rev.push(order[q]);
        }
        proof {
            let m = order@.len();
            assert forall|j: int| 0 <= j < rev@.len() implies (#[trigger] rev@[j]) < n && reach@[rev@[j] as int] by {
                assert(rev@[j] == order@[m - 1 - j]);
            }
            assert forall|a: int, b: int| 0 <= a < b < rev@.len() implies #[trigger] rev@[a] != #[trigger] rev@[b] by {
                assert(rev@[a] == order@[m - 1 - a] && rev@[b] == order@[m - 1 - b]);
            }
            assert forall|v: int| 0 <= v < n && #[trigger] reach@[v] implies in_order(rev@, v) by {
                assert(in_order(order@, v));
                let i = choose|i: int| 0 <= i < m && order@[i] == v;
                assert(rev@[m - 1 - i] == v);
            }
            assert forall|a: int, b: int| 0 <= a <= b < rev@.len() implies !iedge(g.edges@, #[trigger] rev@[a] as int, #[trigger] rev@[b] as int) by {
                assert(rev@[a] == order@[m - 1 - a] && rev@[b] == order@[m - 1 - b]);
            }
        }
        let mut list: Vec<&Node> = Vec::new();
        let ghost mut from: Seq<int> = seq![];
        let mut i: usize = 0;
        while i < rev.len()
            invariant
                g.wf(),
                n == g.ids@.len(),
                g.edges() == connection_edges(self.connections@),
                forall|s: Seq<char>| g.node_ids().contains(s) <==> exists|i: int| 0 <= i < self.nodes@.len() && (#[trigger] self.nodes@[i]).id@ == s,
                i <= rev@.len(),
                forall|j: int| 0 <= j < rev@.len() ==> (#[trigger] rev@[j]) < n,
                forall|a: int, b: int| 0 <= a < b < rev@.len() ==> #[trigger] rev@[a] != #[trigger] rev@[b],
                from.len() == list@.len(),
                forall|k: int| 0 <= k < list@.len() ==> 0 <= #[trigger] from[k] < i && (list@[k]).id@ == g.ids@[rev@[from[k]] as int]@
                    && exists|p: int| first_node_with_id(self.nodes@, list@[k].id@, p) && self.nodes@[p] == *list@[k],
                forall|a: int, b: int| 0 <= a < b < list@.len() ==> #[trigger] from[a] < #[trigger] from[b],
                forall|j: int| #![trigger rev@[j]] 0 <= j < i && node_named(self.nodes@, self.nodes@.len() as int, g.ids@[rev@[j] as int]@)
                    ==> exists|k: int| 0 <= k < list@.len() && from[k] == j,
            decreases rev@.len() - i,
        {
            let ghost old_from = from;
            match self.get_node(g.ids[rev[i]].as_str()) {
                Some(node) => {
                    list.push(node);
                    proof {
                        from = from.push(i as int);
                        assert forall|j: int| #![trigger rev@[j]] 0 <= j < i + 1 && node_named(self.nodes@, self.nodes@.len() as int, g.ids@[rev@[j] as int]@)
                            implies exists|k: int| 0 <= k < list@.len() && from[k] == j by {
                            if j < i {
                                let k = choose|k: int| 0 <= k < old_from.len() && old_from[k] == j;
                                assert(from[k] == j);
                            } else {
                                assert(from[old_from.len() as int] == j);
                            }
                        }
                    }
                },
                None => {},
            }
            i = i + 1;
        }
        proof {
            let e = connection_edges(self.connections@);
            let start = self.nodes@[ti].id@;
            assert(g.ids@[t as int]@ == start);
            assert forall|a: int, b: int| 0 <= a < b < list@.len() implies (#[trigger] list@[a]).id@ != (#[trigger] list@[b]).id@ by {
                if list@[a].id@ == list@[b].id@ {
                    g.lemma_same_id(rev@[from[a]] as int, rev@[from[b]] as int);
                }
            }
            assert forall|s: Seq<char>| (exists|k: int| 0 <= k < list@.len() && (#[trigger] list@[k]).id@ == s) <==> (
                reaches(e, start, s) && exists|i: int| 0 <= i < self.nodes@.len() && (#[trigger] self.nodes@[i]).id@ == s) by {
                if exists|k: int| 0 <= k < list@.len() && (#[trigger] list@[k]).id@ == s {
                    let k = choose|k: int| 0 <= k < list@.len() && (#[trigger] list@[k]).id@ == s;
                    let v = rev@[from[k]] as int;
                    assert(reach@[v]);
                    g.lemma_reach_ids(t as int, v);
                    let p = choose|p: int| first_node_with_id(self.nodes@, list@[k].id@, p) && self.nodes@[p] == *list@[k];
                    assert(self.nodes@[p].id@ == s);
                }
                if reaches(e, start, s) && exists|i: int| 0 <= i < self.nodes@.len() && (#[trigger] self.nodes@[i]).id@ == s {
                    assert(g.node_ids().contains(s));
                    let q = choose|q: int| 0 <= q < g.node_ids().len() && g.node_ids()[q] == s;
                    let v = g.nodes@[q] as int;
                    assert(g.ids@[v]@ == s);
                    g.lemma_reach_ids(t as int, v);
                    assert(reach@[v]);
                    assert(in_order(rev@, v));
                    let j = choose|j: int| 0 <= j < rev@.len() && rev@[j] == v;
                    assert(node_named(self.nodes@, self.nodes@.len() as int, g.ids@[rev@[j] as int]@));
                    let k = choose|k: int| 0 <= k < list@.len() && from[k] == j;
                    assert(list@[k].id@ == s);
                }
            }
            assert(!cycle_from(e, start));
            assert forall|k: int| 0 <= k < list@.len() implies exists|p: int| first_node_with_id(self.nodes@, (#[trigger] list@[k]).id@, p) && self.nodes@[p] == *list@[k] by {
                assert(0 <= from[k] < i);
            }
            assert forall|a: int, b: int| 0 <= a <= b < list@.len() implies !is_edge(e, (#[trigger] list@[a]).id@, (#[trigger] list@[b]).id@) by {
                if is_edge(e, list@[a].id@, list@[b].id@) {
                    let x = rev@[from[a]] as int;
                    let y = rev@[from[b]] as int;
                    let j = choose|j: int| 0 <= j < g.edges().len() && #[trigger] g.edges()[j] == (list@[a].id@, list@[b].id@);
                    g.lemma_same_id(g.edges@[j].0 as int, x);
                    g.lemma_same_id(g.edges@[j].1 as int, y);
                    assert(iedge(g.edges@, x, y));
                    assert(from[a] <= from[b]);
                }
            }
            // The reached vertices, in list order, by id.
            let r = Seq::new(rev@.len(), |j: int| g.ids@[rev@[j] as int]@);
            assert forall|p: int, q: int| 0 <= p < q < r.len() implies r[p] != r[q] by {
                if r[p] == r[q] {
                    g.lemma_same_id(rev@[p] as int, rev@[q] as int);
                }
            }
            assert forall|p: int, q: int| 0 <= p <= q < r.len() implies !is_edge(e, #[trigger] r[p], #[trigger] r[q]) by {
                if is_edge(e, r[p], r[q]) {
                    let j = choose|j: int| 0 <= j < g.edges().len() && #[trigger] g.edges()[j] == (r[p], r[q]);
                    g.lemma_same_id(g.edges@[j].0 as int, rev@[p] as int);
                    g.lemma_same_id(g.edges@[j].1 as int, rev@[q] as int);
                    assert(iedge(g.edges@, rev@[p] as int, rev@[q] as int));
                }
            }
            assert forall|x: Seq<char>, y: Seq<char>| r.contains(x) && #[trigger] is_edge(e, x, y) implies r.contains(y) by {
                let jx = choose|jx: int| 0 <= jx < r.len() && r[jx] == x;
                let v = rev@[jx] as int;
                assert(reach@[v]);
                g.lemma_reach_ids(t as int, v);
                let k = choose|k: int| 0 <= k < g.edges().len() && #[trigger] g.edges()[k] == (x, y);
                let yv = g.edges@[k].1 as int;
                assert(g.ids@[yv]@ == y);
                lemma_reaches_then_edge(e, start, x, y);
                g.lemma_reach_ids(t as int, yv);
                assert(reach@[yv]);
                assert(in_order(rev@, yv));
                let jy = choose|jy: int| 0 <= jy < rev@.len() && rev@[jy] == yv;
                assert(r[jy] == y);
            }
            assert forall|a: int, b: int| 0 <= a <= b < list@.len() implies !leads_to(e, (#[trigger] list@[a]).id@, (#[trigger] list@[b]).id@) by {
                if leads_to(e, list@[a].id@, list@[b].id@) {
                    let w = choose|w: Seq<Seq<char>>| is_walk(e, w) && w.len() >= 2 && w[0] == list@[a].id@ && w.last() == list@[b].id@;
                    assert(r[from[a]] == w[0]);
                    lemma_walk_goes_earlier(e, r, w, w.len() as int);
                    assert(r[from[b]] == w[w.len() - 1]);
                    if a < b {
                        assert(from[a] < from[b]);
                    }
                }
            }
        }
        Ok(list)
    }
}

/// A walk to `b` followed by an edge from `b` to `c` is a walk to `c`.
proof fn lemma_reaches_then_edge(e: Seq<(Seq<char>, Seq<char>)>, a: Seq<char>, b: Seq<char>, c: Seq<char>)
    requires
        reaches(e, a, b),
        is_edge(e, b, c),
    ensures
        reaches(e, a, c),
{
    let w = choose|w: Seq<Seq<char>>| is_walk(e, w) && w[0] == a && w.last() == b;
    let w2 = w.push(c);
    assert forall|k: int| 0 <= k < w2.len() - 1 implies #[trigger] step(e, w2, k) by {
        if k < w.len() - 1 {
            assert(step(e, w, k));
            assert(w2[k] == w[k] && w2[k + 1] == w[k + 1]);
        } else {
            assert(w2[k] == b && w2[k + 1] == c);
        }
    }
    assert(is_walk(e, w2) && w2[0] == a && w2.last() == c);
}

/// In a list without repeats that is closed under the edges and has no edge from an
/// entry to itself or to a later entry, a walk from an entry stays in the list and each
/// of its later vertices stands earlier than its start.
proof fn lemma_walk_goes_earlier(e: Seq<(Seq<char>, Seq<char>)>, r: Seq<Seq<char>>, w: Seq<Seq<char>>, n: int)
    requires
        is_walk(e, w),
        1 <= n <= w.len(),
        r.contains(w[0]),
        forall|p: int, q: int| 0 <= p < q < r.len() ==> r[p] != r[q],
        forall|p: int, q: int| 0 <= p <= q < r.len() ==> !is_edge(e, #[trigger] r[p], #[trigger] r[q]),
        forall|x: Seq<char>, y: Seq<char>| r.contains(x) && #[trigger] is_edge(e, x, y) ==> r.contains(y),
    ensures
        r.contains(w[n - 1]),
        n >= 2 ==> forall|j0: int, j: int| 0 <= j0 < r.len() && 0 <= j < r.len() && r[j0] == w[0] && r[j] == w[n - 1] ==> j < j0,
    decreases n,
{
    if n >= 2 {
        lemma_walk_goes_earlier(e, r, w, n - 1);
        assert(step(e, w, n - 2));
        assert(is_edge(e, w[n - 2], w[n - 1]));
        assert(r.contains(w[n - 1]));
        let jp = choose|jp: int| 0 <= jp < r.len() && r[jp] == w[n - 2];
        assert forall|j0: int, j: int| 0 <= j0 < r.len() && 0 <= j < r.len() && r[j0] == w[0] && r[j] == w[n - 1] implies j < j0 by {
            if jp <= j {
                assert(is_edge(e, r[jp], r[j]));
            }
            if n == 2 {
                if jp < j0 {
                    assert(r[jp] != r[j0]);
                } else if j0 < jp {
                    assert(r[j0] != r[jp]);
                }
            }
        }
    }
}

/// The distinct ids of the first `n` nodes, in the order they first occur.
pub open spec fn first_ids(nodes: Seq<Node>, n: nat) -> Seq<Seq<char>>
    decreases n,
{
    if n == 0 {
        seq![]
    } else {
        let rest = first_ids(nodes, (n - 1) as nat);
        if rest.contains(nodes[n - 1].id@) {
            rest
        } else {
            rest.push(nodes[n - 1].id@)
        }
    }
}

proof fn lemma_first_ids(nodes: Seq<Node>, n: nat)
    requires
        n <= nodes.len(),
    ensures
        forall|s: Seq<char>| first_ids(nodes, n).contains(s) <==> exists|i: int| 0 <= i < n && (#[trigger] nodes[i]).id@ == s,
    decreases n,
{
    if n > 0 {
        lemma_first_ids(nodes, (n - 1) as nat);
        let rest = first_ids(nodes, (n - 1) as nat);
        assert forall|s: Seq<char>| first_ids(nodes, n).contains(s) <==> exists|i: int| 0 <= i < n && (#[trigger] nodes[i]).id@ == s by {
            if exists|i: int| 0 <= i < n && (#[trigger] nodes[i]).id@ == s {
                let i = choose|i: int| 0 <= i < n && (#[trigger] nodes[i]).id@ == s;
                if rest.contains(s) {
                    let j = choose|j: int| 0 <= j < rest.len() && rest[j] == s;
                    if !rest.contains(nodes[n - 1].id@) {
                        assert(first_ids(nodes, n)[j] == s);
                    }
                } else {
                    assert(i == n - 1);
                    assert(first_ids(nodes, n)[rest.len() as int] == s);
                }
            }
            if first_ids(nodes, n).contains(s) && !rest.contains(s) {
                assert(nodes[n - 1].id@ == s);
            }
        }
    }
}

/// The cycle and outside-source conditions only depend on which ids are nodes.
proof fn lemma_same_elements_cycle(e: Seq<(Seq<char>, Seq<char>)>, a: Seq<Seq<char>>, b: Seq<Seq<char>>)
    requires
        forall|s: Seq<char>| a.contains(s) <==> b.contains(s),
    ensures
        cycle_from_node(e, a) <==> cycle_from_node(e, b),
        has_outside_source(e, a) <==> has_outside_source(e, b),
{
    if cycle_from_node(e, a) {
        let w = choose|w: Seq<Seq<char>>| is_walk(e, w) && a.contains(w[0]) && has_repeat(w);
        assert(b.contains(w[0]));
    }
    if cycle_from_node(e, b) {
        let w = choose|w: Seq<Seq<char>>| is_walk(e, w) && b.contains(w[0]) && has_repeat(w);
        assert(a.contains(w[0]));
    }
    if has_outside_source(e, a) {
        let k = choose|k: int| 0 <= k < e.len() && a.contains((#[trigger] e[k]).1) && !a.contains(e[k].0);
        assert(b.contains(e[k].1) && !b.contains(e[k].0));
    }
    if has_outside_source(e, b) {
        let k = choose|k: int| 0 <= k < e.len() && b.contains((#[trigger] e[k]).1) && !b.contains(e[k].0);
        assert(a.contains(e[k].1) && !a.contains(e[k].0));
    }
}

/// When no walk from a node runs into a cycle, no node has to run before itself.
pub proof fn law_acyclic_no_node_precedes_itself(e: Seq<(Seq<char>, Seq<char>)>, nodes: Seq<Seq<char>>, s: Seq<char>)
    requires
        !cycle_from_node(e, nodes),
        nodes.contains(s),
    ensures
        !leads_to(e, s, s),
{
    if leads_to(e, s, s) {
        let w = choose|w: Seq<Seq<char>>| is_walk(e, w) && w.len() >= 2 && w[0] == s && w.last() == s;
        assert(w[0] == w[w.len() - 1]);
        assert(has_repeat(w));
    }
}

} // verus!
