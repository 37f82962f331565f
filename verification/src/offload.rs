use vstd::prelude::*;
use crate::grammar::vec_view;
use crate::connections::next_lists;
use crate::trans_snippet::{Dag, DagNode, DagNodeType};

verus! {

// ---------------------------------------------------------------------------------------------
// Depth-first traversal of the dependency graph
// ---------------------------------------------------------------------------------------------

/// `b` is a successor of `a`.
pub open spec fn edge(g: Seq<Seq<usize>>, a: usize, b: usize) -> bool {
    (a as int) < g.len() && g[a as int].contains(b)
}

/// Node `x` is white (unvisited).
pub open spec fn is_white(c: Seq<usize>, x: usize) -> bool {
    (x as int) < c.len() && c[x as int] == 0
}

pub open spec fn step_ok(g: Seq<Seq<usize>>, p: Seq<usize>, k: int) -> bool {
    edge(g, p[k], p[k + 1])
}

/// A path along the edges whose nodes after the first are all white.
pub open spec fn white_path(g: Seq<Seq<usize>>, c: Seq<usize>, p: Seq<usize>) -> bool {
    &&& p.len() >= 1
    &&& forall|k: int| 0 <= k < p.len() - 1 ==> #[trigger] step_ok(g, p, k)
    &&& forall|k: int| 1 <= k < p.len() ==> is_white(c, #[trigger] p[k])
}

/// The nodes reachable from `i` through white nodes (`i` itself included).
pub open spec fn reached(g: Seq<Seq<usize>>, c: Seq<usize>, i: usize) -> Set<usize> {
    Set::new(|x: usize| exists|p: Seq<usize>| #[trigger] white_path(g, c, p) && p[0] == i && p.last() == x)
}

/// The colouring with the nodes of `s` black.
pub open spec fn paint(c: Seq<usize>, s: Set<usize>) -> Seq<usize> {
    Seq::new(c.len(), |x: int| if s.contains(x as usize) { 2usize } else { c[x] })
}

/// Every edge leads to a coloured node.
pub open spec fn edges_within(g: Seq<Seq<usize>>, n: nat) -> bool {
    forall|x: int, k: int| 0 <= x < g.len() && 0 <= k < g[x].len() ==> (#[trigger] g[x][k] as int) < n
}

/// A set from which every white successor leads back into the set.
pub open spec fn closed(g: Seq<Seq<usize>>, c: Seq<usize>, u: Set<usize>) -> bool {
    forall|y: usize, z: usize| u.contains(y) && #[trigger] edge(g, y, z) && is_white(c, z) ==> #[trigger] u.contains(z)
}

pub open spec fn white_count(c: Seq<usize>) -> nat
    decreases c.len(),
{
    if c.len() == 0 {
        0
    } else {
        white_count(c.drop_last()) + if c.last() == 0 { 1nat } else { 0nat }
    }
}

proof fn lemma_white_count_le(c: Seq<usize>, d: Seq<usize>)
    requires
        c.len() == d.len(),
        forall|x: int| 0 <= x < d.len() && d[x] == 0 ==> c[x] == 0,
    ensures
        white_count(d) <= white_count(c),
    decreases c.len(),
{
    if c.len() > 0 {
        lemma_white_count_le(c.drop_last(), d.drop_last());
    }
}

proof fn lemma_white_count_update(c: Seq<usize>, i: int, v: usize)
    requires
        0 <= i < c.len(),
        v != 0,
    ensures
        white_count(c.update(i, v)) + (if c[i] == 0 { 1nat } else { 0nat }) == white_count(c),
    decreases c.len(),
{
    if i < c.len() - 1 {
        assert(c.update(i, v).drop_last() =~= c.drop_last().update(i, v));
        lemma_white_count_update(c.drop_last(), i, v);
    } else {
        assert(c.update(i, v).drop_last() =~= c.drop_last());
    }
}

proof fn lemma_path_extend(g: Seq<Seq<usize>>, c: Seq<usize>, p: Seq<usize>, y: usize)
    requires
        white_path(g, c, p),
        edge(g, p.last(), y),
        is_white(c, y),
    ensures
        white_path(g, c, p.push(y)),
{
    let q = p.push(y);
    assert forall|k: int| 0 <= k < q.len() - 1 implies #[trigger] step_ok(g, q, k) by {
        if k < p.len() - 1 {
            assert(step_ok(g, p, k));
        }
    }
    assert forall|k: int| 1 <= k < q.len() implies is_white(c, #[trigger] q[k]) by {
        if k < p.len() {
            assert(q[k] == p[k]);
        }
    }
}

proof fn lemma_path_prepend(g: Seq<Seq<usize>>, c: Seq<usize>, i: usize, q: Seq<usize>)
    requires
        white_path(g, c, q),
        edge(g, i, q[0]),
        is_white(c, q[0]),
    ensures
        white_path(g, c, seq![i] + q),
        (seq![i] + q)[0] == i,
        (seq![i] + q).last() == q.last(),
{
    let p = seq![i] + q;
    assert forall|k: int| 0 <= k < p.len() - 1 implies #[trigger] step_ok(g, p, k) by {
        if k > 0 {
            assert(step_ok(g, q, k - 1));
            assert(p[k] == q[k - 1] && p[k + 1] == q[k]);
        }
    }
    assert forall|k: int| 1 <= k < p.len() implies is_white(c, #[trigger] p[k]) by {
        assert(p[k] == q[k - 1]);
        if k > 1 {
            assert(is_white(c, q[k - 1]));
        }
    }
}

/// The nodes reachable from a node of a closed set stay in the set.
proof fn lemma_closed_absorbs(g: Seq<Seq<usize>>, c: Seq<usize>, u: Set<usize>, p: Seq<usize>, j: int)
    requires
        closed(g, c, u),
        white_path(g, c, p),
        0 <= j < p.len(),
        u.contains(p[j]),
    ensures
        u.contains(p.last()),
    decreases p.len() - j,
{
    if j < p.len() - 1 {
        assert(step_ok(g, p, j));
        assert(is_white(c, p[j + 1]));
        assert(u.contains(p[j + 1]));
        lemma_closed_absorbs(g, c, u, p, j + 1);
    }
}

proof fn lemma_reached_closed(g: Seq<Seq<usize>>, c: Seq<usize>, v: usize)
    ensures
        closed(g, c, reached(g, c, v)),
        reached(g, c, v).contains(v),
{
    assert(white_path(g, c, seq![v]));
    assert(seq![v][0] == v && seq![v].last() == v);
    assert forall|y: usize, z: usize| reached(g, c, v).contains(y) && #[trigger] edge(g, y, z) && is_white(c, z)
        implies #[trigger] reached(g, c, v).contains(z) by {
        let p = choose|p: Seq<usize>| #[trigger] white_path(g, c, p) && p[0] == v && p.last() == y;
        lemma_path_extend(g, c, p, z);
        assert(p.push(z)[0] == v && p.push(z).last() == z);
    }
}

/// A path through fewer white nodes is a path through more.
proof fn lemma_path_more_white(g: Seq<Seq<usize>>, c: Seq<usize>, d: Seq<usize>, p: Seq<usize>)
    requires
        white_path(g, d, p),
        forall|x: usize| is_white(d, x) ==> is_white(c, x),
    ensures
        white_path(g, c, p),
{
    assert forall|k: int| 1 <= k < p.len() implies is_white(c, #[trigger] p[k]) by {
        assert(is_white(d, p[k]));
    }
}

/// Painting a closed set black, the nodes reachable from `v` are those reachable in the
/// painted colouring and those of the set.
proof fn lemma_split(g: Seq<Seq<usize>>, c: Seq<usize>, u: Set<usize>, v: usize)
    requires
        closed(g, c, u),
    ensures
        reached(g, c, v) =~= u.intersect(reached(g, c, v)).union(reached(g, paint(c, u), v)),
        reached(g, paint(c, u), v).subset_of(reached(g, c, v)),
{
    let d = paint(c, u);
    assert forall|x: usize| is_white(d, x) implies is_white(c, x) && !u.contains(x) by {}
    assert forall|x: usize| #[trigger] reached(g, d, v).contains(x) implies reached(g, c, v).contains(x) by {
        let p = choose|p: Seq<usize>| #[trigger] white_path(g, d, p) && p[0] == v && p.last() == x;
        lemma_path_more_white(g, c, d, p);
    }
    assert forall|x: usize| #[trigger] reached(g, c, v).contains(x) implies u.contains(x) || reached(g, d, v).contains(x) by {
        let p = choose|p: Seq<usize>| #[trigger] white_path(g, c, p) && p[0] == v && p.last() == x;
        if exists|k: int| 1 <= k < p.len() && u.contains(#[trigger] p[k]) {
            let k = choose|k: int| 1 <= k < p.len() && u.contains(#[trigger] p[k]);
            lemma_closed_absorbs(g, c, u, p, k);
        } else {
            assert forall|k: int| 1 <= k < p.len() implies is_white(d, #[trigger] p[k]) by {
                assert(is_white(c, p[k]));
                assert(!u.contains(p[k]));
            }
            assert(white_path(g, d, p));
        }
    }
}

/// The nodes reachable from `i` through white nodes: `i` itself, and those reachable from its
/// white successors once `i` is grey.
pub open spec fn through_successors(g: Seq<Seq<usize>>, c1: Seq<usize>, succ: Seq<usize>, k: int) -> Set<usize> {
    Set::new(|x: usize| exists|t: int| 0 <= t < k && is_white(c1, #[trigger] succ[t]) && reached(g, c1, succ[t]).contains(x))
}

proof fn lemma_through_closed(g: Seq<Seq<usize>>, c1: Seq<usize>, succ: Seq<usize>, k: int)
    ensures
        closed(g, c1, through_successors(g, c1, succ, k)),
{
    let u = through_successors(g, c1, succ, k);
    assert forall|y: usize, z: usize| u.contains(y) && #[trigger] edge(g, y, z) && is_white(c1, z) implies #[trigger] u.contains(z) by {
        let t = choose|t: int| 0 <= t < k && is_white(c1, #[trigger] succ[t]) && reached(g, c1, succ[t]).contains(y);
        lemma_reached_closed(g, c1, succ[t]);
        assert(reached(g, c1, succ[t]).contains(z));
    }
}

proof fn lemma_last_visit(p: Seq<usize>, i: usize) -> (j: int)
    requires
        p.len() >= 1,
        p[0] == i,
    ensures
        0 <= j < p.len(),
        p[j] == i,
        forall|m: int| j < m < p.len() ==> #[trigger] p[m] != i,
    decreases p.len(),
{
    if p.last() == i {
        (p.len() - 1) as int
    } else {
        let j = lemma_last_visit(p.drop_last(), i);
        assert forall|m: int| j < m < p.len() implies #[trigger] p[m] != i by {
            if m < p.len() - 1 {
                assert(p.drop_last()[m] == p[m]);
            }
        }
        j
    }
}

proof fn lemma_root(g: Seq<Seq<usize>>, c0: Seq<usize>, i: usize)
    requires
        (i as int) < c0.len(),
        (i as int) < g.len(),
    ensures
        reached(g, c0, i) =~= through_successors(g, c0.update(i as int, 1), g[i as int], g[i as int].len() as int).insert(i),
{
    let c1 = c0.update(i as int, 1);
    let succ = g[i as int];
    let r = through_successors(g, c1, succ, succ.len() as int);
    assert forall|x: usize| is_white(c1, x) implies is_white(c0, x) && x != i by {}
    assert forall|x: usize| #[trigger] reached(g, c0, i).contains(x) implies r.insert(i).contains(x) by {
        let p = choose|p: Seq<usize>| #[trigger] white_path(g, c0, p) && p[0] == i && p.last() == x;
        if x != i {
            let j = lemma_last_visit(p, i);
            assert(j < p.len() - 1);
            let y = p[j + 1];
            assert(step_ok(g, p, j));
            assert(succ.contains(y));
            let t = choose|t: int| 0 <= t < succ.len() && succ[t] == y;
            let q = p.subrange(j + 1, p.len() as int);
            assert forall|k: int| 0 <= k < q.len() - 1 implies #[trigger] step_ok(g, q, k) by {
                assert(step_ok(g, p, j + 1 + k));
                assert(q[k] == p[j + 1 + k] && q[k + 1] == p[j + 2 + k]);
            }
            assert forall|k: int| 1 <= k < q.len() implies is_white(c1, #[trigger] q[k]) by {
                assert(q[k] == p[j + 1 + k]);
                assert(is_white(c0, p[j + 1 + k]));
                assert(p[j + 1 + k] != i);
            }
            assert(white_path(g, c1, q));
            assert(q[0] == y && q.last() == x);
            assert(is_white(c0, y) && y != i);
            assert(is_white(c1, succ[t]));
            assert(reached(g, c1, succ[t]).contains(x));
            assert(r.contains(x));
        }
    }
    assert forall|x: usize| #[trigger] r.insert(i).contains(x) implies reached(g, c0, i).contains(x) by {
        if x == i {
            assert(white_path(g, c0, seq![i]));
            assert(seq![i][0] == i && seq![i].last() == i);
        } else {
            let t = choose|t: int| 0 <= t < succ.len() && is_white(c1, #[trigger] succ[t]) && reached(g, c1, succ[t]).contains(x);
            let q = choose|q: Seq<usize>| #[trigger] white_path(g, c1, q) && q[0] == succ[t] && q.last() == x;
            lemma_path_more_white(g, c0, c1, q);
            assert(succ.contains(succ[t]));
            lemma_path_prepend(g, c0, i, q);
        }
    }
}

/// Visits, depth first, the white nodes reachable from `i` through white nodes, greying each
/// on the way down and blackening it on the way back: afterwards exactly the nodes that
/// `reached` gives are black, every other node keeps its colour. The list of nodes to offload
/// is left as it is.
pub fn DFS_visit(G: &Vec<DagNode>, i: usize, color: &mut Vec<usize>, offload_header: &mut Vec<DagNode>)
    requires
        (i as int) < old(color)@.len(),
        old(color)@.len() <= G@.len(),
        edges_within(next_lists(vec_view(G@)), old(color)@.len()),
    ensures
        final(color)@ == paint(old(color)@, reached(next_lists(vec_view(G@)), old(color)@, i)),
        final(offload_header)@ == old(offload_header)@,
    decreases white_count(old(color)@) + (if old(color)@[i as int] == 0 { 0int } else { 1int }),
{
    let ghost g = next_lists(vec_view(G@));
    let ghost c0 = color@;
    let ghost oh = offload_header@;
    color.set(i, 1);
    let ghost c1 = color@;
    proof {
        lemma_white_count_update(c0, i as int, 1);
    }
    let succ = &G[i].next_nodes;
    assert(succ@ == g[i as int]);
    let mut k: usize = 0;
    assert(paint(c1, through_successors(g, c1, succ@, 0)) =~= c1);
    while k < succ.len()
        invariant
            g == next_lists(vec_view(G@)),
            c1 == c0.update(i as int, 1),
            c0 == old(color)@,
            succ@ == g[i as int],
            k <= succ@.len(),
            (i as int) < c0.len(),
            c0.len() <= G@.len(),
            edges_within(g, c0.len()),
            color@ == paint(c1, through_successors(g, c1, succ@, k as int)),
            white_count(c1) + (if c0[i as int] == 0 { 1nat } else { 0nat }) == white_count(c0),
            offload_header@ == oh,
        decreases succ@.len() - k,
    {
        let ghost u = through_successors(g, c1, succ@, k as int);
        let ghost u1 = through_successors(g, c1, succ@, k + 1);
        let v = succ[k];
        assert(g[i as int][k as int] == v);
        assert((v as int) < c0.len());
        proof {
            lemma_through_closed(g, c1, succ@, k as int);
        }
        if color[v] == 0 {
            proof {
                lemma_white_count_le(c1, color@);
                assert(is_white(c1, v) && !u.contains(v));
            }
            let ghost before = color@;
            assert(white_count(before) < white_count(c0) + (if c0[i as int] == 0 { 0int } else { 1int }));
            DFS_visit(G, v, color, offload_header);
            proof {
                lemma_split(g, c1, u, v);
                let r = reached(g, before, v);
                assert(u1 =~= u.union(reached(g, c1, v))) by {
                    assert forall|x: usize| #[trigger] u1.contains(x) implies u.union(reached(g, c1, v)).contains(x) by {
                        let t = choose|t: int| 0 <= t < k + 1 && is_white(c1, #[trigger] succ@[t]) && reached(g, c1, succ@[t]).contains(x);
                        if t < k {
                            assert(u.contains(x));
                        }
                    }
                    assert forall|x: usize| #[trigger] u.union(reached(g, c1, v)).contains(x) implies u1.contains(x) by {
                        if u.contains(x) {
                            let t = choose|t: int| 0 <= t < k && is_white(c1, #[trigger] succ@[t]) && reached(g, c1, succ@[t]).contains(x);
                            assert(0 <= t < k + 1);
                        } else {
                            assert(is_white(c1, succ@[k as int]));
                        }
                    }
                }
                assert(color@ =~= paint(c1, u1));
            }
        } else {
            proof {
                assert(u1 =~= u) by {
                    assert forall|x: usize| #[trigger] u1.contains(x) implies u.contains(x) by {
                        let t = choose|t: int| 0 <= t < k + 1 && is_white(c1, #[trigger] succ@[t]) && reached(g, c1, succ@[t]).contains(x);
                        if t == k {
                            assert(u.contains(v));
                            let p = choose|p: Seq<usize>| #[trigger] white_path(g, c1, p) && p[0] == v && p.last() == x;
                            lemma_closed_absorbs(g, c1, u, p, 0);
                        }
                    }
                    assert forall|x: usize| #[trigger] u.contains(x) implies u1.contains(x) by {
                        let t = choose|t: int| 0 <= t < k && is_white(c1, #[trigger] succ@[t]) && reached(g, c1, succ@[t]).contains(x);
                        assert(0 <= t < k + 1);
                    }
                }
            }
        }
        k = k + 1;
    }
    let ghost um = through_successors(g, c1, succ@, k as int);
    assert(k == succ@.len());
    assert(color@.len() <= usize::MAX) by {
        assert(color.len() == color@.len());
    }
    color.set(i, 2);
    proof {
        lemma_root(g, c0, i);
        assert(reached(g, c0, i) == um.insert(i));
        let want = paint(c0, um.insert(i));
        assert(color@.len() == want.len());
        assert forall|x: int| 0 <= x < want.len() implies #[trigger] color@[x] == want[x] by {
            if x != i as int {
                assert(color@[x] == paint(c1, um)[x]);
                assert(c1[x] == c0[x]);
                assert(um.insert(i).contains(x as usize) == um.contains(x as usize));
            }
        }
        assert(color@ =~= want);
    }
}

/// Colours the graph for offloading: declarations start black and statements white, and each
/// statement still white, from the position after the declarations on, is visited depth first.
/// The colouring and the offload list it builds are not kept: the graph is left unchanged.
pub fn create_offload_header(my_dag: &mut Dag)
    requires
        edges_within(next_lists(old(my_dag)@.dag_vector), crate::connections::counted(old(my_dag)@.dag_vector,
            old(my_dag)@.dag_vector.len() as int)),
    ensures
        final(my_dag)@ == old(my_dag)@,
{
    let ghost nv = my_dag@.dag_vector;
    let nodes = &my_dag.dag_vector;
    let mut offload_header: Vec<DagNode> = Vec::new();
    let mut color: Vec<usize> = Vec::new();
    let mut i: usize = 0;
    let mut m: usize = 0;
    while m < nodes.len()
        invariant
            m <= nodes@.len(),
            nv == vec_view(nodes@),
            color@.len() == crate::connections::counted(nv, m as int),
            i <= color@.len(),
            i <= m,
        decreases nodes@.len() - m,
    {
        assert(nv[m as int] == nodes@[m as int]@);
        match &nodes[m].node_type {
            DagNodeType::Decl(_) => {
                color.push(2);
                i = i + 1;
            },
            DagNodeType::Stmt(_) => {
                color.push(0);
            },
            DagNodeType::Cond(_) => {},
        }
        m = m + 1;
    }
    proof {
        crate::connections::lemma_counted_le(nv, nv.len() as int);
    }
    while i < color.len()
        invariant
            nv == vec_view(nodes@),
            color@.len() == crate::connections::counted(nv, nv.len() as int),
            color@.len() <= nodes@.len(),
            edges_within(next_lists(nv), color@.len()),
            i <= color@.len(),
        decreases color@.len() - i,
    {
        if color[i] == 0 {
            DFS_visit(nodes, i, &mut color, &mut offload_header);
        }
        i = i + 1;
    }
}

} // verus!
