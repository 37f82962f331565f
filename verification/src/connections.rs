use vstd::prelude::*;
use crate::grammar::{
    SpecStatement, SpecVariableDecl, SpecVarInfo, SpecLValue, SpecExprRight, TypeQualifier, VarInfo, Value, LValue,
    ExprRight, VariableDecl, Statement, vec_view, reads_scalar, SpecOperand,
};
use crate::bmv2_gen::{dec, push_dec};
use crate::lexer::{chars_of, push_char};
use crate::trans_snippet::{
    Dag, DagNode, DagNodeType, SpecDagNode, SpecDagNodeType, IndexMap, get_write_var, get_read_vars, written_name,
    statement_reads, statement_reads_ok, debug_text, debug_string, array_op_text, operand_debug_text, binop_text,
    handle_array_op, handle_operand, handle_binop,
};

verus! {

// ---------------------------------------------------------------------------------------------
// Read-after-write edges between the statements of a graph
// ---------------------------------------------------------------------------------------------

/// The position that the connection pass gives the node at `k`: the number of declarations and
/// statements before it (conditions are not counted).
pub open spec fn counted(nodes: Seq<SpecDagNode>, k: int) -> nat
    decreases k,
{
    if k <= 0 {
        0
    } else {
        counted(nodes, k - 1) + if nodes[k - 1].node_type is Cond { 0nat } else { 1nat }
    }
}

/// The declarations before `k`, each name at the counted position of its declaration; a later
/// declaration of a name hides an earlier one.
pub open spec fn decl_positions(nodes: Seq<SpecDagNode>, k: int) -> Map<Seq<char>, usize>
    decreases k,
{
    if k <= 0 {
        Map::empty()
    } else {
        let m = decl_positions(nodes, k - 1);
        match nodes[k - 1].node_type {
            SpecDagNodeType::Decl(d) => m.insert(d.identifier, counted(nodes, k - 1) as usize),
            _ => m,
        }
    }
}

pub open spec fn stmt_of(n: SpecDagNode) -> Option<SpecStatement> {
    match n.node_type {
        SpecDagNodeType::Stmt(s) => Some(s),
        _ => None,
    }
}

/// The successors that a statement which writes the variable declared at `w` gains, scanning
/// the nodes from `j` on: a node is added where the positions it reads include `w`, unless it
/// is there already. A node that is not a statement counts with the reads of the statement
/// scanned before it.
pub open spec fn raw_targets(nodes: Seq<SpecDagNode>, dm: Map<Seq<char>, usize>, w: usize, j: int, reads: Seq<usize>,
    next: Seq<usize>) -> (Seq<usize>, Seq<usize>)
    decreases nodes.len() - j,
{
    if j >= nodes.len() {
        (next, reads)
    } else {
        let reads1 = match stmt_of(nodes[j]) {
            Some(t) => statement_reads(dm, t),
            None => reads,
        };
        let next1 = if reads1.contains(w) && !next.contains(j as usize) { next.push(j as usize) } else { next };
        raw_targets(nodes, dm, w, j + 1, reads1, next1)
    }
}

/// The successor lists of the nodes, and the reads of the last statement scanned.
#[verifier::ext_equal]
pub struct RawState {
    pub nexts: Seq<Seq<usize>>,
    pub reads: Seq<usize>,
}

/// The pass from node `k` on: each statement, at its counted position `i`, gains as successors
/// the later nodes (from `i + 1`) that read the variable it writes.
pub open spec fn raw_pass(nodes: Seq<SpecDagNode>, k: int, st: RawState) -> RawState
    decreases nodes.len() - k,
{
    if k >= nodes.len() {
        st
    } else {
        match stmt_of(nodes[k]) {
            Some(s) => {
                let i = counted(nodes, k) as int;
                let dm = decl_positions(nodes, k);
                let w = dm[written_name(s.lvalue)];
                let r = raw_targets(nodes, dm, w, i + 1, st.reads, st.nexts[i]);
                raw_pass(nodes, k + 1, RawState { nexts: st.nexts.update(i, r.0), reads: r.1 })
            },
            None => raw_pass(nodes, k + 1, st),
        }
    }
}

pub open spec fn next_lists(nodes: Seq<SpecDagNode>) -> Seq<Seq<usize>> {
    nodes.map_values(|n: SpecDagNode| n.next_nodes)
}

/// The successor lists after the pass over a whole graph.
pub open spec fn raw_connections(nodes: Seq<SpecDagNode>) -> Seq<Seq<usize>> {
    raw_pass(nodes, 0, RawState { nexts: next_lists(nodes), reads: Seq::empty() }).nexts
}

/// Every statement writes a declared variable, and every later statement reads only what can
/// be looked up among the declarations before the writing statement.
pub open spec fn raw_ok(nodes: Seq<SpecDagNode>) -> bool {
    forall|k: int| 0 <= k < nodes.len() && (#[trigger] stmt_of(nodes[k])) is Some ==> {
        &&& decl_positions(nodes, k).contains_key(written_name(stmt_of(nodes[k])->Some_0.lvalue))
        &&& forall|j: int| counted(nodes, k) < j < nodes.len() && (#[trigger] stmt_of(nodes[j])) is Some
                ==> statement_reads_ok(decl_positions(nodes, k), stmt_of(nodes[j])->Some_0)
    }
}

pub(crate) proof fn lemma_counted_le(nodes: Seq<SpecDagNode>, k: int)
    requires 0 <= k,
    ensures counted(nodes, k) <= k,
    decreases k,
{
    if k > 0 {
        lemma_counted_le(nodes, k - 1);
    }
}

fn copy_indices(v: &Vec<usize>) -> (r: Vec<usize>)
    ensures r@ == v@,
{
    let mut r: Vec<usize> = Vec::new();
    let mut i: usize = 0;
    while i < v.len()
        invariant
            i <= v@.len(),
            r@ == v@.take(i as int),
        decreases v@.len() - i,
    {
        r.push(v[i]);
        assert(v@.take(i + 1) =~= v@.take(i as int).push(v@[i as int]));
        i = i + 1;
    }
    assert(v@.take(i as int) =~= v@);
    r
}

fn contains_index(v: &Vec<usize>, x: usize) -> (b: bool)
    ensures b == v@.contains(x),
{
    let mut i: usize = 0;
    while i < v.len()
        invariant
            i <= v@.len(),
            forall|m: int| 0 <= m < i ==> v@[m] != x,
        decreases v@.len() - i,
    {
        if v[i] == x {
            assert(v@[i as int] == x);
            return true;
        }
        i = i + 1;
    }
    false
}

/// Whether the connection pass accepts the graph (`raw_ok`).
pub fn raw_connectable(my_dag: &Dag) -> (b: bool)
    ensures b == raw_ok(my_dag@.dag_vector),
{
    let nodes = &my_dag.dag_vector;
    let ghost nv = my_dag@.dag_vector;
    let n = nodes.len();
    let mut decl_map = IndexMap::new();
    let mut i: usize = 0;
    let mut k: usize = 0;
    assert(decl_map@ =~= decl_positions(nv, 0));
    while k < n
        invariant
            n == nv.len(),
            nv == vec_view(nodes@),
            nv == my_dag@.dag_vector,
            k <= n,
            i as nat == counted(nv, k as int),
            i <= k,
            decl_map@ == decl_positions(nv, k as int),
            forall|x: int| 0 <= x < k && (#[trigger] stmt_of(nv[x])) is Some ==> {
                &&& decl_positions(nv, x).contains_key(written_name(stmt_of(nv[x])->Some_0.lvalue))
                &&& forall|j: int| counted(nv, x) < j < nv.len() && (#[trigger] stmt_of(nv[j])) is Some
                        ==> statement_reads_ok(decl_positions(nv, x), stmt_of(nv[j])->Some_0)
            },
        decreases n - k,
    {
        proof {
            lemma_counted_le(nv, k as int);
        }
        match &nodes[k].node_type {
            DagNodeType::Decl(d) => {
                decl_map.insert(d.identifier.id_name.clone(), i);
                assert(stmt_of(nv[k as int]) is None);
                i = i + 1;
            },
            DagNodeType::Stmt(s) => {
                assert(stmt_of(nv[k as int]) == Some(s@));
                let name = crate::trans_snippet::written_name_string(&s.lvalue);
                if decl_map.get(&name).is_none() {
                    assert(!decl_positions(nv, k as int).contains_key(written_name(stmt_of(nv[k as int])->Some_0.lvalue)));
                    return false;
                }
                let mut j: usize = i + 1;
                while j < n
                    invariant
                        n == nv.len(),
                        nv == vec_view(nodes@),
                        nv == my_dag@.dag_vector,
                        k < n,
                        i as nat == counted(nv, k as int),
                        i <= k,
                        i + 1 <= j <= n,
                        stmt_of(nv[k as int]) is Some,
                        decl_map@ == decl_positions(nv, k as int),
                        forall|y: int| counted(nv, k as int) < y < j && (#[trigger] stmt_of(nv[y])) is Some
                            ==> statement_reads_ok(decl_positions(nv, k as int), stmt_of(nv[y])->Some_0),
                    decreases n - j,
                {
                    match &nodes[j].node_type {
                        DagNodeType::Stmt(t) => {
                            assert(stmt_of(nv[j as int]) == Some(t@));
                            if !crate::trans_snippet::statement_reads_known(&decl_map, t) {
                                assert(!statement_reads_ok(decl_positions(nv, k as int), stmt_of(nv[j as int])->Some_0));
                                assert(counted(nv, k as int) < j);
                                return false;
                            }
                        },
                        _ => {
                            assert(stmt_of(nv[j as int]) is None);
                        },
                    }
                    j = j + 1;
                }
                i = i + 1;
            },
            DagNodeType::Cond(_) => {
                assert(stmt_of(nv[k as int]) is None);
            },
        }
        k = k + 1;
    }
    true
}

/// Connects each statement to the later statements that read the variable it writes (by the
/// position of the variable's declaration): the successors are appended to the statement's
/// `next_nodes`, each once, in the order of the graph. Nothing else of the graph changes.
pub fn create_RAW_connections(my_dag: &mut Dag)
    requires
        raw_ok(old(my_dag)@.dag_vector),
    ensures
        final(my_dag)@.snippet_id == old(my_dag)@.snippet_id,
        final(my_dag)@.device_type == old(my_dag)@.device_type,
        final(my_dag)@.device_vector == old(my_dag)@.device_vector,
        final(my_dag)@.dag_vector.len() == old(my_dag)@.dag_vector.len(),
        forall|m: int| 0 <= m < old(my_dag)@.dag_vector.len() ==> #[trigger] final(my_dag)@.dag_vector[m] == (SpecDagNode {
            next_nodes: raw_connections(old(my_dag)@.dag_vector)[m],
            ..old(my_dag)@.dag_vector[m]
        }),
{
    let ghost nodes = my_dag@.dag_vector;
    let n = my_dag.dag_vector.len();
    let mut nexts: Vec<Vec<usize>> = Vec::new();
    let mut m: usize = 0;
    while m < n
        invariant
            n == nodes.len(),
            nodes == my_dag@.dag_vector,
            m <= n,
            nexts@.len() == m,
            forall|x: int| 0 <= x < m ==> #[trigger] nexts@[x]@ == nodes[x].next_nodes,
        decreases n - m,
    {
        nexts.push(copy_indices(&my_dag.dag_vector[m].next_nodes));
        m = m + 1;
    }
    let ghost init = RawState { nexts: next_lists(nodes), reads: Seq::empty() };
    let mut decl_map = IndexMap::new();
    let mut reads: Vec<usize> = Vec::new();
    let mut i: usize = 0;
    let mut k: usize = 0;
    assert(nexts@.map_values(|v: Vec<usize>| v@) =~= next_lists(nodes));
    assert(decl_map@ =~= decl_positions(nodes, 0));
    while k < n
        invariant
            n == nodes.len(),
            nodes == my_dag@.dag_vector,
            raw_ok(nodes),
            k <= n,
            i as nat == counted(nodes, k as int),
            i <= k,
            decl_map@ == decl_positions(nodes, k as int),
            nexts@.len() == n,
            raw_pass(nodes, k as int, RawState { nexts: nexts@.map_values(|v: Vec<usize>| v@), reads: reads@ })
                == raw_pass(nodes, 0, init),
        decreases n - k,
    {
        let ghost st = RawState { nexts: nexts@.map_values(|v: Vec<usize>| v@), reads: reads@ };
        proof {
            lemma_counted_le(nodes, k as int);
        }
        match &my_dag.dag_vector[k].node_type {
            DagNodeType::Decl(d) => {
                decl_map.insert(d.identifier.id_name.clone(), i);
                assert(stmt_of(nodes[k as int]) is None);
                i = i + 1;
            },
            DagNodeType::Stmt(s) => {
                assert(stmt_of(nodes[k as int]) == Some(s@));
                let ghost dm = decl_map@;
                let w = get_write_var(&decl_map, &s.lvalue);
                let mut next = copy_indices(&nexts[i]);
                let ghost next0 = next@;
                let ghost reads0 = reads@;
                let mut j: usize = i + 1;
                while j < n
                    invariant
                        n == nodes.len(),
                        nodes == my_dag@.dag_vector,
                        raw_ok(nodes),
                        k < n,
                        i as nat == counted(nodes, k as int),
                        i <= k,
                        i + 1 <= j <= n,
                        stmt_of(nodes[k as int]) is Some,
                        decl_map@ == dm,
                        dm == decl_positions(nodes, k as int),
                        raw_targets(nodes, dm, w, j as int, reads@, next@) == raw_targets(nodes, dm, w, i + 1, reads0, next0),
                    decreases n - j,
                {
                    match &my_dag.dag_vector[j].node_type {
                        DagNodeType::Stmt(t) => {
                            assert(stmt_of(nodes[j as int]) == Some(t@));
                            reads = get_read_vars(&decl_map, t);
                        },
                        _ => {
                            assert(stmt_of(nodes[j as int]) is None);
                        },
                    }
                    if contains_index(&reads, w) && !contains_index(&next, j) {
                        next.push(j);
                    }
                    j = j + 1;
                }
                proof {
                    assert(st.nexts[i as int] == next0);
                }
                nexts.set(i, next);
                proof {
                    assert(nexts@.map_values(|v: Vec<usize>| v@) =~= st.nexts.update(i as int, raw_targets(nodes, dm, w, i + 1, reads0, next0).0));
                }
                i = i + 1;
            },
            DagNodeType::Cond(_) => {
                assert(stmt_of(nodes[k as int]) is None);
            },
        }
        k = k + 1;
    }
    let ghost fin = nexts@.map_values(|v: Vec<usize>| v@);
    assert(fin == raw_connections(nodes));
    // Put the new successor lists into the nodes.
    let mut old_nodes: Vec<DagNode> = Vec::new();
    std::mem::swap(&mut old_nodes, &mut my_dag.dag_vector);
    let mut rest_nexts = nexts;
    let mut x: usize = 0;
    while old_nodes.len() > 0
        invariant
            x + old_nodes@.len() == n,
            rest_nexts@.len() == old_nodes@.len(),
            n == nodes.len(),
            fin.len() == n,
            forall|y: int| 0 <= y < old_nodes@.len() ==> #[trigger] old_nodes@[y]@ == nodes[x + y],
            forall|y: int| 0 <= y < rest_nexts@.len() ==> #[trigger] rest_nexts@[y]@ == fin[x + y],
            my_dag.dag_vector@.len() == x,
            forall|y: int| 0 <= y < x ==> #[trigger] my_dag.dag_vector@[y]@ == (SpecDagNode { next_nodes: fin[y], ..nodes[y] }),
            my_dag@.snippet_id == old(my_dag)@.snippet_id,
            my_dag@.device_type == old(my_dag)@.device_type,
            my_dag@.device_vector == old(my_dag)@.device_vector,
        decreases old_nodes@.len(),
    {
        let ghost before_nodes = old_nodes@;
        let ghost before_nexts = rest_nexts@;
        let node = old_nodes.remove(0);
        let nx = rest_nexts.remove(0);
        assert(node@ == nodes[x as int]);
        assert(nx@ == fin[x as int]);
        let DagNode { node_type, p4_code, next_nodes: _, prev_nodes, pre_condition } = node;
        my_dag.dag_vector.push(DagNode { node_type, p4_code, next_nodes: nx, prev_nodes, pre_condition });
        assert(my_dag.dag_vector@[x as int]@ == (SpecDagNode { next_nodes: fin[x as int], ..nodes[x as int] }));
        proof {
            assert forall|y: int| 0 <= y < old_nodes@.len() implies #[trigger] old_nodes@[y]@ == nodes[x + 1 + y] by {
                assert(old_nodes@[y] == before_nodes[y + 1]);
            }
            assert forall|y: int| 0 <= y < rest_nexts@.len() implies #[trigger] rest_nexts@[y]@ == fin[x + 1 + y] by {
                assert(rest_nexts@[y] == before_nexts[y + 1]);
            }
        }
        x = x + 1;
    }
}

// ---------------------------------------------------------------------------------------------
// Which edges the read-after-write pass adds
// ---------------------------------------------------------------------------------------------

/// The layout that branch removal gives a graph: no condition nodes, and no declaration after a
/// statement.
pub open spec fn decls_then_stmts(nodes: Seq<SpecDagNode>) -> bool {
    &&& forall|a: int| 0 <= a < nodes.len() ==> !((#[trigger] nodes[a]).node_type is Cond)
    &&& forall|a: int, b: int| 0 <= a <= b < nodes.len() && (#[trigger] stmt_of(nodes[a])) is Some
            ==> (#[trigger] stmt_of(nodes[b])) is Some
}

/// The statement at `k` writes the variable that the statement at `j`, later in the graph,
/// reads (both looked up among the declarations before `k`).
pub open spec fn raw_edge(nodes: Seq<SpecDagNode>, k: int, j: int) -> bool {
    let dm = decl_positions(nodes, k);
    &&& k < j < nodes.len()
    &&& stmt_of(nodes[k]) is Some
    &&& stmt_of(nodes[j]) is Some
    &&& statement_reads(dm, stmt_of(nodes[j])->Some_0).contains(dm[written_name(stmt_of(nodes[k])->Some_0.lvalue)])
}

proof fn lemma_counted_no_conds(nodes: Seq<SpecDagNode>, k: int)
    requires
        0 <= k <= nodes.len(),
        forall|a: int| 0 <= a < nodes.len() ==> !((#[trigger] nodes[a]).node_type is Cond),
    ensures counted(nodes, k) == k,
    decreases k,
{
    if k > 0 {
        lemma_counted_no_conds(nodes, k - 1);
    }
}

proof fn lemma_raw_targets(nodes: Seq<SpecDagNode>, dm: Map<Seq<char>, usize>, w: usize, j: int, reads: Seq<usize>,
    next: Seq<usize>)
    requires
        0 <= j,
        nodes.len() <= usize::MAX,
        forall|b: int| j <= b < nodes.len() ==> (#[trigger] stmt_of(nodes[b])) is Some,
    ensures
        forall|x: usize| (#[trigger] raw_targets(nodes, dm, w, j, reads, next).0.contains(x)) <==> (next.contains(x) || {
            &&& j <= x < nodes.len()
            &&& statement_reads(dm, stmt_of(nodes[x as int])->Some_0).contains(w)
        }),
    decreases nodes.len() - j,
{
    if j < nodes.len() {
        let reads1 = statement_reads(dm, stmt_of(nodes[j])->Some_0);
        let next1 = if reads1.contains(w) && !next.contains(j as usize) { next.push(j as usize) } else { next };
        lemma_raw_targets(nodes, dm, w, j + 1, reads1, next1);
        assert forall|x: usize| next1.contains(x) <==> (next.contains(x) || (x == j && reads1.contains(w))) by {
            if reads1.contains(w) && !next.contains(j as usize) {
                if next1.contains(x) {
                    let m = choose|m: int| 0 <= m < next1.len() && next1[m] == x;
                    if m < next.len() {
                        assert(next[m] == x);
                    }
                }
                if next.contains(x) {
                    let m = choose|m: int| 0 <= m < next.len() && next[m] == x;
                    assert(next1[m] == x);
                }
                if x == j {
                    assert(next1[next.len() as int] == x);
                }
            }
        }
        assert(stmt_of(nodes[j]) is Some);
        assert(raw_targets(nodes, dm, w, j, reads, next) == raw_targets(nodes, dm, w, j + 1, reads1, next1));
        assert forall|x: usize| (#[trigger] raw_targets(nodes, dm, w, j, reads, next).0.contains(x)) <==> (next.contains(x) || {
            &&& j <= x < nodes.len()
            &&& statement_reads(dm, stmt_of(nodes[x as int])->Some_0).contains(w)
        }) by {
            if x == j {
                assert(x as int == j);
            }
        }
    }
}

proof fn lemma_raw_pass(nodes: Seq<SpecDagNode>, k: int, st: RawState)
    requires
        0 <= k <= nodes.len(),
        nodes.len() <= usize::MAX,
        decls_then_stmts(nodes),
        st.nexts.len() == nodes.len(),
        forall|m: int| k <= m < nodes.len() ==> #[trigger] st.nexts[m] == nodes[m].next_nodes,
    ensures
        raw_pass(nodes, k, st).nexts.len() == nodes.len(),
        forall|m: int| 0 <= m < k ==> #[trigger] raw_pass(nodes, k, st).nexts[m] == st.nexts[m],
        forall|m: int, x: usize| k <= m < nodes.len() ==> (#[trigger] raw_pass(nodes, k, st).nexts[m].contains(x)
            <==> (nodes[m].next_nodes.contains(x) || raw_edge(nodes, m, x as int))),
    decreases nodes.len() - k,
{
    if k < nodes.len() {
        lemma_counted_no_conds(nodes, k);
        match stmt_of(nodes[k]) {
            Some(s) => {
                let dm = decl_positions(nodes, k);
                let w = dm[written_name(s.lvalue)];
                assert forall|b: int| k + 1 <= b < nodes.len() implies (#[trigger] stmt_of(nodes[b])) is Some by {
                    assert(stmt_of(nodes[k]) is Some);
                }
                lemma_raw_targets(nodes, dm, w, k + 1, st.reads, st.nexts[k]);
                let r = raw_targets(nodes, dm, w, k + 1, st.reads, st.nexts[k]);
                let st1 = RawState { nexts: st.nexts.update(k, r.0), reads: r.1 };
                lemma_raw_pass(nodes, k + 1, st1);
                let fin = raw_pass(nodes, k, st);
                assert(fin == raw_pass(nodes, k + 1, st1));
                assert forall|m: int, x: usize| k <= m < nodes.len() implies (#[trigger] fin.nexts[m].contains(x)
                    <==> (nodes[m].next_nodes.contains(x) || raw_edge(nodes, m, x as int))) by {
                    if m == k {
                        assert(fin.nexts[k] == st1.nexts[k]);
                        assert(r.0.contains(x) <==> (st.nexts[k].contains(x) || {
                            &&& k + 1 <= x < nodes.len()
                            &&& statement_reads(dm, stmt_of(nodes[x as int])->Some_0).contains(w)
                        }));
                    }
                }
            },
            None => {
                lemma_raw_pass(nodes, k + 1, st);
                let fin = raw_pass(nodes, k, st);
                assert forall|m: int, x: usize| k <= m < nodes.len() implies (#[trigger] fin.nexts[m].contains(x)
                    <==> (nodes[m].next_nodes.contains(x) || raw_edge(nodes, m, x as int))) by {
                    if m == k {
                        assert(!raw_edge(nodes, k, x as int));
                    }
                }
            },
        }
    }
}

/// On a graph laid out as branch removal lays it out, the read-after-write pass gives the
/// statement at `k` the successor `x` exactly where `x` was one already, or the statement at
/// `x` comes later and reads the variable that the statement at `k` writes; the other nodes keep
/// their successors.
pub proof fn lemma_raw_connections_edges(nodes: Seq<SpecDagNode>)
    requires
        nodes.len() <= usize::MAX,
        decls_then_stmts(nodes),
    ensures
        raw_connections(nodes).len() == nodes.len(),
        forall|k: int, x: usize| 0 <= k < nodes.len() ==> (#[trigger] raw_connections(nodes)[k].contains(x)
            <==> (nodes[k].next_nodes.contains(x) || raw_edge(nodes, k, x as int))),
{
    let init = RawState { nexts: next_lists(nodes), reads: Seq::empty() };
    lemma_raw_pass(nodes, 0, init);
}

/// Every scalar a statement reads as an operand (both branches of a ternary included) is among
/// the nodes the statement reads: the node that declares it.
pub proof fn lemma_statement_reads_scalars(dm: Map<Seq<char>, usize>, s: SpecStatement, n: Seq<char>)
    requires
        reads_scalar(s.expr, n),
        dm.contains_key(n),
    ensures
        statement_reads(dm, s).contains(dm[n]),
{
    let x = SpecOperand::LValue(SpecLValue::Scalar(n));
    let pre = match s.lvalue {
        SpecLValue::Array(_, ind) => {
            let v = crate::trans_snippet::index_operand_node(dm, *ind);
            if v != usize::MAX { seq![v] } else { Seq::<usize>::empty() }
        },
        _ => Seq::<usize>::empty(),
    };
    let a = crate::trans_snippet::operand_reads(dm, s.expr.op1);
    let b = match s.expr.expr_right {
        SpecExprRight::BinOp(_, o) => crate::trans_snippet::operand_reads(dm, o),
        SpecExprRight::Cond(o1, o2) => crate::trans_snippet::operand_reads(dm, o1) + crate::trans_snippet::operand_reads(dm, o2),
        SpecExprRight::Empty => Seq::<usize>::empty(),
    };
    let all = statement_reads(dm, s);
    assert(all == pre + a + b);
    assert(crate::trans_snippet::operand_reads(dm, x) == seq![dm[n]]);
    if s.expr.op1 == x {
        assert(all[pre.len() as int] == dm[n]);
    } else {
        match s.expr.expr_right {
            SpecExprRight::BinOp(_, o) => {
                assert(o == x);
                assert(all[(pre.len() + a.len()) as int] == dm[n]);
            },
            SpecExprRight::Cond(o1, o2) => {
                if o1 == x {
                    assert(all[(pre.len() + a.len()) as int] == dm[n]);
                } else {
                    assert(o2 == x);
                    let r1 = crate::trans_snippet::operand_reads(dm, o1);
                    assert(all[(pre.len() + a.len() + r1.len()) as int] == dm[n]);
                }
            },
            SpecExprRight::Empty => {},
        }
    }
}

/// On a graph laid out as branch removal lays it out and accepted by the read-after-write pass,
/// a later statement that reads, as any of its operands, the scalar variable that an earlier
/// statement writes becomes a successor of that statement.
pub proof fn lemma_raw_reader_is_successor(nodes: Seq<SpecDagNode>, k: int, j: int)
    requires
        nodes.len() <= usize::MAX,
        decls_then_stmts(nodes),
        raw_ok(nodes),
        0 <= k < j < nodes.len(),
        stmt_of(nodes[k]) is Some,
        stmt_of(nodes[j]) is Some,
        reads_scalar(stmt_of(nodes[j])->Some_0.expr, written_name(stmt_of(nodes[k])->Some_0.lvalue)),
    ensures
        raw_connections(nodes)[k].contains(j as usize),
{
    let dm = decl_positions(nodes, k);
    let n = written_name(stmt_of(nodes[k])->Some_0.lvalue);
    assert(dm.contains_key(n));
    lemma_statement_reads_scalars(dm, stmt_of(nodes[j])->Some_0, n);
    assert(raw_edge(nodes, k, (j as usize) as int));
    lemma_raw_connections_edges(nodes);
}

// ---------------------------------------------------------------------------------------------
// The text of the dependency graph, as its plot reads it
// ---------------------------------------------------------------------------------------------

/// The text without double quotes and backslashes.
pub open spec fn strip_quotes(s: Seq<char>) -> Seq<char>
    decreases s.len(),
{
    if s.len() == 0 {
        s
    } else {
        let c = s.last();
        strip_quotes(s.drop_last()) + if c == '"' || c == '\\' { Seq::<char>::empty() } else { seq![c] }
    }
}

pub open spec fn qualifier_text(q: TypeQualifier) -> Seq<char> {
    match q {
        TypeQualifier::Input => "Input"@,
        TypeQualifier::Output => "Output"@,
        TypeQualifier::Persistent => "Persistent"@,
        TypeQualifier::Transient => "Transient"@,
        TypeQualifier::Const => "Const"@,
        TypeQualifier::Field => "Field"@,
        TypeQualifier::Global => "Global"@,
    }
}

pub open spec fn var_info_text(vi: SpecVarInfo) -> Seq<char> {
    match vi {
        SpecVarInfo::BitArray(w, n) => "BitArray("@ + dec(w as u64) + ", "@ + dec(n as u64) + ")"@,
        SpecVarInfo::Packet(id) => "Packet(Identifier { id_name: "@ + debug_text(id) + " })"@,
    }
}

/// Each initial value followed by a comma.
pub open spec fn values_text(vs: Seq<u32>) -> Seq<char>
    decreases vs.len(),
{
    if vs.len() == 0 {
        Seq::empty()
    } else {
        values_text(vs.drop_last()) + dec(vs.last() as u64) + ","@
    }
}

/// The positions separated by `, `.
pub open spec fn positions_text(v: Seq<usize>) -> Seq<char>
    decreases v.len(),
{
    if v.len() == 0 {
        Seq::empty()
    } else if v.len() == 1 {
        dec(v[0] as u64)
    } else {
        positions_text(v.drop_last()) + ", "@ + dec(v.last() as u64)
    }
}

/// A list of positions in brackets.
pub open spec fn position_list_text(v: Seq<usize>) -> Seq<char> {
    "["@ + positions_text(v) + "]"@
}

/// The line of a declaration: qualifier, name, shape and initial values.
pub open spec fn decl_line(d: SpecVariableDecl) -> Seq<char> {
    qualifier_text(d.var_type.type_qualifier) + " "@ + debug_text(d.identifier) + " : "@ + var_info_text(d.var_type.var_info)
        + (if d.initial_values.len() > 0 { "["@ + values_text(d.initial_values) + "]"@ } else { Seq::empty() }) + "\n"@
}

pub open spec fn lvalue_line_text(lv: SpecLValue) -> Seq<char> {
    match lv {
        SpecLValue::Scalar(id) => debug_text(id) + " = "@,
        SpecLValue::Array(id, ind) => debug_text(id) + "["@ + debug_text(array_op_text(*ind)) + "] = "@,
        SpecLValue::Field(p, f) => debug_text(p) + "."@ + debug_text(f) + " = "@,
    }
}

/// The line of a statement, its operands as `handle_operand` writes them.
pub open spec fn stmt_line(s: SpecStatement) -> Seq<char> {
    lvalue_line_text(s.lvalue) + operand_debug_text(s.expr.op1) + (match s.expr.expr_right {
        SpecExprRight::BinOp(op, o) => binop_text(op) + operand_debug_text(o),
        SpecExprRight::Cond(a, b) => " ? "@ + operand_debug_text(a) + " : "@ + operand_debug_text(b),
        SpecExprRight::Empty => Seq::empty(),
    }) + "\n"@
}

pub open spec fn node_line(n: SpecDagNode) -> Seq<char> {
    match n.node_type {
        SpecDagNodeType::Decl(d) => decl_line(d),
        SpecDagNodeType::Stmt(s) => stmt_line(s),
        SpecDagNodeType::Cond(_) => Seq::empty(),
    }
}

/// The edges of a declaration or statement: its successors and its predecessors.
pub open spec fn edges_line(n: SpecDagNode) -> Seq<char> {
    match n.node_type {
        SpecDagNodeType::Cond(_) => Seq::empty(),
        _ => position_list_text(n.next_nodes) + ":"@ + position_list_text(n.prev_nodes) + "\n"@,
    }
}

pub open spec fn lines_of(nodes: Seq<SpecDagNode>, line: spec_fn(SpecDagNode) -> Seq<char>) -> Seq<char>
    decreases nodes.len(),
{
    if nodes.len() == 0 {
        Seq::empty()
    } else {
        lines_of(nodes.drop_last(), line) + line(nodes.last())
    }
}

/// The listing of the graph's declarations and statements, without quotes and backslashes.
pub open spec fn dependency_text(nodes: Seq<SpecDagNode>) -> Seq<char> {
    strip_quotes(lines_of(nodes, |n: SpecDagNode| node_line(n)))
}

/// The edges of each declaration and statement, one line each.
pub open spec fn next_prev_text(nodes: Seq<SpecDagNode>) -> Seq<char> {
    lines_of(nodes, |n: SpecDagNode| edges_line(n))
}

fn push_qualifier(s: &mut String, q: TypeQualifier)
    ensures final(s)@ == old(s)@ + qualifier_text(q),
{
    let t = match q {
        TypeQualifier::Input => "Input",
        TypeQualifier::Output => "Output",
        TypeQualifier::Persistent => "Persistent",
        TypeQualifier::Transient => "Transient",
        TypeQualifier::Const => "Const",
        TypeQualifier::Field => "Field",
        TypeQualifier::Global => "Global",
    };
    s.append(t);
}

fn push_var_info(s: &mut String, vi: &VarInfo)
    ensures final(s)@ == old(s)@ + var_info_text(vi@),
{
    match vi {
        VarInfo::BitArray(w, n) => {
            s.append("BitArray(");
            push_dec(s, *w as u64);
            s.append(", ");
            push_dec(s, *n as u64);
            s.append(")");
        },
        VarInfo::Packet(id) => {
            s.append("Packet(Identifier { id_name: ");
            let d = debug_string(id.id_name.as_str());
            s.append(d.as_str());
            s.append(" })");
        },
    }
}

fn push_values(s: &mut String, vs: &Vec<Value>)
    ensures final(s)@ == old(s)@ + values_text(vec_view(vs@)),
{
    let ghost s0 = s@;
    let ghost vv = vec_view(vs@);
    let mut i: usize = 0;
    assert(vv.take(0) =~= Seq::<u32>::empty());
    while i < vs.len()
        invariant
            i <= vs@.len(),
            vv == vec_view(vs@),
            s@ == s0 + values_text(vv.take(i as int)),
        decreases vs@.len() - i,
    {
        push_dec(s, vs[i].value as u64);
        s.append(",");
        assert(vv.take(i + 1).drop_last() =~= vv.take(i as int));
        i = i + 1;
    }
    assert(vv.take(i as int) =~= vv);
}

fn push_position_list(s: &mut String, v: &Vec<usize>)
    ensures final(s)@ == old(s)@ + position_list_text(v@),
{
    let ghost s0 = s@;
    s.append("[");
    let mut i: usize = 0;
    assert(v@.take(0) =~= Seq::<usize>::empty());
    while i < v.len()
        invariant
            i <= v@.len(),
            s@ == s0 + "["@ + positions_text(v@.take(i as int)),
        decreases v@.len() - i,
    {
        if i > 0 {
            s.append(", ");
        }
        push_dec(s, v[i] as u64);
        assert(v@.take(i + 1).drop_last() =~= v@.take(i as int));
        i = i + 1;
    }
    assert(v@.take(i as int) =~= v@);
    s.append("]");
}

fn push_decl_line(s: &mut String, d: &VariableDecl)
    ensures final(s)@ == old(s)@ + decl_line(d@),
{
    let ghost s0 = s@;
    push_qualifier(s, d.var_type.type_qualifier);
    s.append(" ");
    let name = debug_string(d.identifier.id_name.as_str());
    s.append(name.as_str());
    s.append(" : ");
    push_var_info(s, &d.var_type.var_info);
    let ghost mid = s@;
    if d.initial_values.len() > 0 {
        s.append("[");
        push_values(s, &d.initial_values);
        s.append("]");
    }
    s.append("\n");
    assert(s@ =~= s0 + decl_line(d@));
}

fn push_lvalue_line(s: &mut String, lv: &LValue)
    ensures final(s)@ == old(s)@ + lvalue_line_text(lv@),
{
    match lv {
        LValue::Scalar(id) => {
            let d = debug_string(id.id_name.as_str());
            s.append(d.as_str());
            s.append(" = ");
        },
        LValue::Array(id1, id2) => {
            let d = debug_string(id1.id_name.as_str());
            s.append(d.as_str());
            s.append("[");
            let inner = handle_array_op(id2);
            let d2 = debug_string(inner.as_str());
            s.append(d2.as_str());
            s.append("] = ");
        },
        LValue::Field(p, f) => {
            let d = debug_string(p.id_name.as_str());
            s.append(d.as_str());
            s.append(".");
            let d2 = debug_string(f.id_name.as_str());
            s.append(d2.as_str());
            s.append(" = ");
        },
    }
}

fn push_right_text(s: &mut String, er: &ExprRight)
    ensures
        final(s)@ == old(s)@ + match er@ {
            SpecExprRight::BinOp(op, o) => binop_text(op) + operand_debug_text(o),
            SpecExprRight::Cond(a, b) => " ? "@ + operand_debug_text(a) + " : "@ + operand_debug_text(b),
            SpecExprRight::Empty => Seq::<char>::empty(),
        },
{
    match er {
        ExprRight::BinOp(op, operand) => {
            let b = handle_binop(*op);
            s.append(b.as_str());
            let o2 = handle_operand(operand);
            s.append(o2.as_str());
        },
        ExprRight::Cond(o1, o2) => {
            s.append(" ? ");
            let t1 = handle_operand(o1);
            s.append(t1.as_str());
            s.append(" : ");
            let t2 = handle_operand(o2);
            s.append(t2.as_str());
        },
        ExprRight::Empty() => {
            assert(old(s)@ + Seq::<char>::empty() =~= old(s)@);
        },
    }
}

fn push_stmt_line(s: &mut String, st: &Statement)
    ensures final(s)@ == old(s)@ + stmt_line(st@),
{
    let ghost s0 = s@;
    push_lvalue_line(s, &st.lvalue);
    let o = handle_operand(&st.expr.op1);
    s.append(o.as_str());
    push_right_text(s, &st.expr.expr_right);
    s.append("\n");
    assert(s@ =~= s0 + stmt_line(st@));
}

fn push_node_line(s: &mut String, n: &DagNode)
    ensures final(s)@ == old(s)@ + node_line(n@),
{
    match &n.node_type {
        DagNodeType::Decl(d) => push_decl_line(s, d),
        DagNodeType::Stmt(st) => push_stmt_line(s, st),
        DagNodeType::Cond(_) => {
            assert(old(s)@ + Seq::<char>::empty() =~= old(s)@);
        },
    }
}

fn push_edges_line(s: &mut String, n: &DagNode)
    ensures final(s)@ == old(s)@ + edges_line(n@),
{
    match &n.node_type {
        DagNodeType::Cond(_) => {
            assert(old(s)@ + Seq::<char>::empty() =~= old(s)@);
        },
        _ => {
            push_position_list(s, &n.next_nodes);
            s.append(":");
            push_position_list(s, &n.prev_nodes);
            s.append("\n");
        },
    }
}

/// The text without double quotes and backslashes.
pub fn strip_quote_chars(t: &str) -> (r: String)
    ensures r@ == strip_quotes(t@),
{
    let cs = chars_of(t);
    let mut r = String::new();
    let mut i: usize = 0;
    assert(cs@.take(0) =~= Seq::<char>::empty());
    while i < cs.len()
        invariant
            i <= cs@.len(),
            cs@ == t@,
            r@ == strip_quotes(cs@.take(i as int)),
        decreases cs@.len() - i,
    {
        let c = cs[i];
        if c != '"' && c != '\\' {
            push_char(&mut r, c);
        }
        assert(cs@.take(i + 1).drop_last() =~= cs@.take(i as int));
        i = i + 1;
    }
    assert(cs@.take(i as int) =~= cs@);
    r
}

/// The two texts of a graph that its plot is drawn from: the listing of its declarations and
/// statements (`dependency_text`) and their edges (`next_prev_text`).
pub fn create_dependency_dag(my_dag: &Dag) -> (r: (String, String))
    ensures
        r.0@ == dependency_text(my_dag@.dag_vector),
        r.1@ == next_prev_text(my_dag@.dag_vector),
{
    let nodes = &my_dag.dag_vector;
    let ghost nv = my_dag@.dag_vector;
    let mut contents = String::new();
    let mut edges = String::new();
    let mut i: usize = 0;
    assert(nv.take(0) =~= Seq::<SpecDagNode>::empty());
    while i < nodes.len()
        invariant
            i <= nodes@.len(),
            nv == vec_view(nodes@),
            contents@ == lines_of(nv.take(i as int), |n: SpecDagNode| node_line(n)),
            edges@ == lines_of(nv.take(i as int), |n: SpecDagNode| edges_line(n)),
        decreases nodes@.len() - i,
    {
        push_node_line(&mut contents, &nodes[i]);
        push_edges_line(&mut edges, &nodes[i]);
        assert(nv.take(i + 1).drop_last() =~= nv.take(i as int));
        assert(nv.take(i + 1).last() == nodes@[i as int]@);
        i = i + 1;
    }
    assert(nv.take(i as int) =~= nv);
    let clean = strip_quote_chars(contents.as_str());
    (clean, edges)
}

} // verus!
