use vstd::prelude::*;
use crate::grammar::{
    ExprRight, Operand, LValue, VarInfo, SpecExprRight, SpecOperand, SpecLValue, SpecVarInfo,
};
use crate::lexer::{digits_end, lemma_digits_end_bounds, chars_of, spells, is_digit_char, push_char};
use crate::trans_snippet::{
    Dag, DagNode, DagNodeType, SpecDagNode, SpecDagNodeType, DeclMap, VarDecl, SpecVarDecl,
};
use crate::bmv2_gen::{add_node_decls, bit_var_info};

verus! {

// ---------------------------------------------------------------------------------------------
// Names of generated tables and actions
// ---------------------------------------------------------------------------------------------

/// The names `w` followed by decimal digits (as many as there are) that occur in `t` from
/// position `i` on, from left to right; a name is searched for again after the end of the
/// previous one. Digits are the ASCII digits.
pub open spec fn numbered_from(t: Seq<char>, w: Seq<char>, i: int) -> Seq<Seq<char>>
    decreases t.len() - i,
{
    if i < 0 || i >= t.len() {
        Seq::empty()
    } else if i + w.len() <= t.len() && t.subrange(i, i + w.len()) == w && digits_end(t, i + w.len()) > i + w.len() {
        let end = digits_end(t, i + w.len());
        proof {
            lemma_digits_end_bounds(t, i + w.len());
        }
        seq![t.subrange(i, end)] + numbered_from(t, w, end)
    } else {
        numbered_from(t, w, i + 1)
    }
}

/// The numbered names `w...` of a text.
pub open spec fn numbered_names(t: Seq<char>, w: Seq<char>) -> Seq<Seq<char>> {
    numbered_from(t, w, 0)
}

pub open spec fn strings_view(v: Seq<String>) -> Seq<Seq<char>> {
    v.map_values(|s: String| s@)
}

fn digit_run_end(t: &Vec<char>, j: usize) -> (e: usize)
    requires j <= t@.len(),
    ensures e == digits_end(t@, j as int), e <= t@.len(),
{
    proof {
        lemma_digits_end_bounds(t@, j as int);
    }
    let mut e: usize = j;
    while e < t.len() && is_digit_char(t[e])
        invariant
            j <= e <= t@.len(),
            digits_end(t@, e as int) == digits_end(t@, j as int),
        decreases t@.len() - e,
    {
        e = e + 1;
    }
    e
}

fn string_of(t: &Vec<char>, a: usize, b: usize) -> (s: String)
    requires a <= b <= t@.len(),
    ensures s@ == t@.subrange(a as int, b as int),
{
    let mut s = String::new();
    let mut k: usize = a;
    while k < b
        invariant
            a <= k <= b <= t@.len(),
            s@ == t@.subrange(a as int, k as int),
        decreases b - k,
    {
        push_char(&mut s, t[k]);
        assert(t@.subrange(a as int, k + 1) =~= t@.subrange(a as int, k as int).push(t@[k as int]));
        k = k + 1;
    }
    s
}

/// The names `word` followed by digits in `text`, from left to right.
pub fn numbered_names_in(text: &str, word: &str) -> (r: Vec<String>)
    ensures strings_view(r@) == numbered_names(text@, word@),
{
    let t = chars_of(text);
    let w = chars_of(word);
    let mut out: Vec<String> = Vec::new();
    let mut i: usize = 0;
    assert(strings_view(out@) =~= Seq::<Seq<char>>::empty());
    while i < t.len()
        invariant
            i <= t@.len(),
            t@ == text@,
            w@ == word@,
            strings_view(out@) + numbered_from(t@, w@, i as int) == numbered_from(t@, w@, 0),
        decreases t@.len() - i,
    {
        let ghost before = strings_view(out@);
        if w.len() <= t.len() - i && spells(&t, i, i + w.len(), &w) {
            let e = digit_run_end(&t, i + w.len());
            if e > i + w.len() {
                let name = string_of(&t, i, e);
                out.push(name);
                proof {
                    assert(strings_view(out@) =~= before.push(t@.subrange(i as int, e as int)));
                    assert(numbered_from(t@, w@, i as int) == seq![t@.subrange(i as int, e as int)] + numbered_from(t@, w@, e as int));
                    assert(strings_view(out@) + numbered_from(t@, w@, e as int) =~= before + numbered_from(t@, w@, i as int));
                }
                i = e;
                continue;
            }
        }
        assert(numbered_from(t@, w@, i as int) == numbered_from(t@, w@, i + 1));
        i = i + 1;
    }
    assert(strings_view(out@) =~= strings_view(out@) + numbered_from(t@, w@, i as int));
    out
}

// ---------------------------------------------------------------------------------------------
// Commands for the control plane
// ---------------------------------------------------------------------------------------------

pub open spec fn table_names(n: SpecDagNode) -> Seq<Seq<char>> {
    numbered_names(n.p4_code.p4_commons, "table"@)
}

pub open spec fn action_names(n: SpecDagNode) -> Seq<Seq<char>> {
    numbered_names(n.p4_code.p4_commons, "action"@)
}

/// `table_set_default table action` for the first `k` tables and actions, in order.
pub open spec fn set_defaults(tables: Seq<Seq<char>>, actions: Seq<Seq<char>>, k: nat) -> Seq<char>
    decreases k,
{
    if k == 0 {
        Seq::empty()
    } else {
        set_defaults(tables, actions, (k - 1) as nat) + "table_set_default "@ + tables[k - 1] + " "@ + actions[k - 1] + "\n"@
    }
}

/// The commands for a node, given the declarations before it: a conditional assignment on a
/// one-bit scalar fills its table with its two actions, for 1 and for 0; another statement
/// whose tables and actions pair up makes each action its table's default.
pub open spec fn node_commands(n: SpecDagNode, m: Map<Seq<char>, SpecVarDecl>) -> Seq<char> {
    let t = table_names(n);
    let a = action_names(n);
    match n.node_type {
        SpecDagNodeType::Stmt(s) => match s.expr.expr_right {
            SpecExprRight::Cond(_, _) => match s.expr.op1 {
                SpecOperand::LValue(SpecLValue::Scalar(id)) => if m.contains_key(id) {
                    "table_add "@ + t[0] + " "@ + a[0] + " 1 => \n"@ + "table_add "@ + t[0] + " "@ + a[1] + " 0 => \n"@
                } else {
                    Seq::empty()
                },
                _ => Seq::empty(),
            },
            _ => if t.len() == a.len() { set_defaults(t, a, a.len()) } else { Seq::empty() },
        },
        _ => Seq::empty(),
    }
}

/// The commands of a node can be made: a conditional assignment matches on a declared one-bit
/// scalar whose table and two actions are there, or on a scalar not declared, or on an array
/// or a value, not on a packet field.
pub open spec fn node_commands_ok(n: SpecDagNode, m: Map<Seq<char>, SpecVarDecl>) -> bool {
    match n.node_type {
        SpecDagNodeType::Stmt(s) => match s.expr.expr_right {
            SpecExprRight::Cond(_, _) => match s.expr.op1 {
                SpecOperand::LValue(SpecLValue::Scalar(id)) => m.contains_key(id) ==> (m[id].var_info == SpecVarInfo::BitArray(1, 1)
                    && table_names(n).len() >= 1 && action_names(n).len() >= 2),
                SpecOperand::LValue(SpecLValue::Field(_, _)) => false,
                _ => true,
            },
            _ => true,
        },
        _ => true,
    }
}

/// The commands of the nodes in order, each given the declarations before it.
pub open spec fn commands_text(nodes: Seq<SpecDagNode>) -> Seq<char>
    decreases nodes.len(),
{
    if nodes.len() == 0 {
        Seq::empty()
    } else {
        commands_text(nodes.drop_last()) + node_commands(nodes.last(), add_node_decls(Map::empty(), nodes.drop_last()))
    }
}

pub open spec fn commands_ok(nodes: Seq<SpecDagNode>) -> bool {
    forall|i: int| 0 <= i < nodes.len() ==> node_commands_ok(#[trigger] nodes[i], add_node_decls(Map::empty(), nodes.subrange(0, i)))
}

/// `w` occurs in `t` as a run of consecutive characters.
pub open spec fn occurs_in(w: Seq<char>, t: Seq<char>) -> bool {
    exists|p: int| 0 <= p && p + w.len() <= t.len() && #[trigger] t.subrange(p, p + w.len()) == w
}

proof fn lemma_occurs_left(w: Seq<char>, a: Seq<char>, b: Seq<char>)
    requires occurs_in(w, a),
    ensures occurs_in(w, a + b),
{
    let p = choose|p: int| 0 <= p && p + w.len() <= a.len() && #[trigger] a.subrange(p, p + w.len()) == w;
    assert((a + b).subrange(p, p + w.len()) =~= a.subrange(p, p + w.len()));
}

proof fn lemma_occurs_right(w: Seq<char>, a: Seq<char>, b: Seq<char>)
    requires occurs_in(w, b),
    ensures occurs_in(w, a + b),
{
    let p = choose|p: int| 0 <= p && p + w.len() <= b.len() && #[trigger] b.subrange(p, p + w.len()) == w;
    assert((a + b).subrange(a.len() + p, a.len() + p + w.len()) =~= b.subrange(p, p + w.len()));
}

proof fn lemma_occurs_self(w: Seq<char>)
    ensures occurs_in(w, w),
{
    let p: int = 0;
    assert(w.subrange(p, p + w.len()) =~= w);
}

/// The line that makes `action` the default action of `table`.
pub open spec fn default_line(table: Seq<char>, action: Seq<char>) -> Seq<char> {
    "table_set_default "@ + table + " "@ + action + "\n"@
}

proof fn lemma_set_defaults_lines(tables: Seq<Seq<char>>, actions: Seq<Seq<char>>, k: nat, i: int)
    requires 0 <= i < k,
    ensures occurs_in(default_line(tables[i], actions[i]), set_defaults(tables, actions, k)),
    decreases k,
{
    let prev = set_defaults(tables, actions, (k - 1) as nat);
    let line = default_line(tables[k - 1], actions[k - 1]);
    assert(set_defaults(tables, actions, k) =~= prev + line);
    if i == k - 1 {
        lemma_occurs_self(line);
        lemma_occurs_right(line, prev, line);
    } else {
        lemma_set_defaults_lines(tables, actions, (k - 1) as nat, i);
        lemma_occurs_left(default_line(tables[i], actions[i]), prev, line);
    }
}

proof fn lemma_commands_text_node(nodes: Seq<SpecDagNode>, j: int, w: Seq<char>)
    requires
        0 <= j < nodes.len(),
        occurs_in(w, node_commands(nodes[j], add_node_decls(Map::empty(), nodes.subrange(0, j)))),
    ensures occurs_in(w, commands_text(nodes)),
    decreases nodes.len(),
{
    let init = nodes.drop_last();
    if j == nodes.len() - 1 {
        assert(init =~= nodes.subrange(0, j));
        lemma_occurs_right(w, commands_text(init), node_commands(nodes.last(), add_node_decls(Map::empty(), init)));
    } else {
        assert(init[j] == nodes[j]);
        assert(init.subrange(0, j) =~= nodes.subrange(0, j));
        lemma_commands_text_node(init, j, w);
        lemma_occurs_left(w, commands_text(init), node_commands(nodes.last(), add_node_decls(Map::empty(), init)));
    }
}

/// Every table of a statement that is not a ternary gets its action as default: where the
/// statement's code names as many tables as actions, the commands of the graph hold the line
/// `table_set_default table_i action_i` for each of them, however many there are.
pub proof fn lemma_every_table_gets_its_default(nodes: Seq<SpecDagNode>, j: int, i: int)
    requires
        0 <= j < nodes.len(),
        nodes[j].node_type is Stmt,
        !(nodes[j].node_type->Stmt_0.expr.expr_right is Cond),
        table_names(nodes[j]).len() == action_names(nodes[j]).len(),
        0 <= i < action_names(nodes[j]).len(),
    ensures
        occurs_in(default_line(table_names(nodes[j])[i], action_names(nodes[j])[i]), commands_text(nodes)),
{
    let n = nodes[j];
    let t = table_names(n);
    let a = action_names(n);
    lemma_set_defaults_lines(t, a, a.len(), i);
    assert(node_commands(n, add_node_decls(Map::empty(), nodes.subrange(0, j))) == set_defaults(t, a, a.len()));
    lemma_commands_text_node(nodes, j, default_line(t[i], a[i]));
}

fn push_set_defaults(s: &mut String, tables: &Vec<String>, actions: &Vec<String>)
    requires tables@.len() == actions@.len(),
    ensures final(s)@ == old(s)@ + set_defaults(strings_view(tables@), strings_view(actions@), actions@.len()),
{
    let ghost s0 = s@;
    let mut x: usize = 0;
    while x < actions.len()
        invariant
            x <= actions@.len(),
            tables@.len() == actions@.len(),
            s@ == s0 + set_defaults(strings_view(tables@), strings_view(actions@), x as nat),
        decreases actions@.len() - x,
    {
        s.append("table_set_default ");
        s.append(tables[x].as_str());
        s.append(" ");
        s.append(actions[x].as_str());
        s.append("\n");
        x = x + 1;
    }
}

fn push_node_commands(s: &mut String, n: &DagNode, map: &DeclMap)
    requires node_commands_ok(n@, map@),
    ensures final(s)@ == old(s)@ + node_commands(n@, map@),
{
    match &n.node_type {
        DagNodeType::Stmt(st) => {
            let tables = numbered_names_in(n.p4_code.p4_commons.as_str(), "table");
            let actions = numbered_names_in(n.p4_code.p4_commons.as_str(), "action");
            match &st.expr.expr_right {
                ExprRight::Cond(_, _) => match &st.expr.op1 {
                    Operand::LValue(LValue::Scalar(id)) => match map.get(&id.id_name) {
                        Some(_) => {
                            s.append("table_add ");
                            s.append(tables[0].as_str());
                            s.append(" ");
                            s.append(actions[0].as_str());
                            s.append(" 1 => \n");
                            s.append("table_add ");
                            s.append(tables[0].as_str());
                            s.append(" ");
                            s.append(actions[1].as_str());
                            s.append(" 0 => \n");
                        },
                        None => {
                            assert(old(s)@ + Seq::<char>::empty() =~= old(s)@);
                        },
                    },
                    _ => {
                        assert(old(s)@ + Seq::<char>::empty() =~= old(s)@);
                    },
                },
                _ => {
                    if tables.len() == actions.len() {
                        push_set_defaults(s, &tables, &actions);
                    } else {
                        assert(old(s)@ + Seq::<char>::empty() =~= old(s)@);
                    }
                },
            }
        },
        _ => {
            assert(old(s)@ + Seq::<char>::empty() =~= old(s)@);
        },
    }
}

/// The control-plane commands of a graph: table entries for conditional assignments and
/// default actions for the other statements.
spec fn node_ok_at(nv: Seq<SpecDagNode>, j: int) -> bool {
    node_commands_ok(nv[j], add_node_decls(Map::empty(), nv.subrange(0, j)))
}

fn node_commands_checkable(n: &DagNode, map: &DeclMap) -> (b: bool)
    ensures b == node_commands_ok(n@, map@),
{
    match &n.node_type {
        DagNodeType::Stmt(st) => match &st.expr.expr_right {
            ExprRight::Cond(_, _) => match &st.expr.op1 {
                Operand::LValue(LValue::Scalar(id)) => match map.get(&id.id_name) {
                    Some(d) => {
                        let one_bit = match &d.var_info {
                            VarInfo::BitArray(w, k) => *w == 1 && *k == 1,
                            VarInfo::Packet(_) => false,
                        };
                        let tables = numbered_names_in(n.p4_code.p4_commons.as_str(), "table");
                        let actions = numbered_names_in(n.p4_code.p4_commons.as_str(), "action");
                        one_bit && tables.len() >= 1 && actions.len() >= 2
                    },
                    None => true,
                },
                Operand::LValue(LValue::Field(_, _)) => false,
                _ => true,
            },
            _ => true,
        },
        _ => true,
    }
}

/// Whether the commands of the graph can be generated (`commands_ok`): the condition of every
/// ternary is a one-bit variable matched by a table with two actions.
pub fn commands_checkable(snippet_dag: &Dag) -> (b: bool)
    ensures b == commands_ok(snippet_dag@.dag_vector),
{
    let nodes = &snippet_dag.dag_vector;
    let ghost nv = snippet_dag@.dag_vector;
    let mut map = DeclMap::new();
    let mut i: usize = 0;
    assert(nv.subrange(0, 0) =~= Seq::<SpecDagNode>::empty());
    while i < nodes.len()
        invariant
            i <= nodes@.len(),
            nodes == &snippet_dag.dag_vector,
            nv == snippet_dag@.dag_vector,
            map@ == add_node_decls(Map::empty(), nv.subrange(0, i as int)),
            forall|j: int| 0 <= j < i ==> #[trigger] node_ok_at(nv, j),
        decreases nodes@.len() - i,
    {
        proof {
            assert(nv.subrange(0, i + 1).drop_last() =~= nv.subrange(0, i as int));
            assert(nv[i as int] == nodes@[i as int]@);
        }
        if !node_commands_checkable(&nodes[i], &map) {
            assert(!node_ok_at(nv, i as int));
            return false;
        }
        assert(node_ok_at(nv, i as int));
        match &nodes[i].node_type {
            DagNodeType::Decl(d) => {
                let id = d.identifier.id_name.clone();
                let vd = VarDecl { id, var_info: bit_var_info(&d.var_type.var_info), type_qualifier: d.var_type.type_qualifier };
                map.insert(d.identifier.id_name.clone(), vd);
            },
            _ => {},
        }
        i = i + 1;
    }
    assert forall|j: int| 0 <= j < nv.len() implies node_commands_ok(#[trigger] nv[j], add_node_decls(Map::empty(), nv.subrange(0, j))) by {
        assert(node_ok_at(nv, j));
    }
    true
}

pub fn gen_control_plane_commands(snippet_dag: &Dag) -> (s: String)
    requires
        commands_ok(snippet_dag@.dag_vector),
    ensures
        s@ == commands_text(snippet_dag@.dag_vector),
{
    let nodes = &snippet_dag.dag_vector;
    let ghost nv = snippet_dag@.dag_vector;
    let mut map = DeclMap::new();
    let mut s = String::new();
    let mut i: usize = 0;
    assert(nv.subrange(0, 0) =~= Seq::<SpecDagNode>::empty());
    while i < nodes.len()
        invariant
            i <= nodes@.len(),
            nodes == &snippet_dag.dag_vector,
            nv == snippet_dag@.dag_vector,
            commands_ok(nv),
            map@ == add_node_decls(Map::empty(), nv.subrange(0, i as int)),
            s@ == commands_text(nv.subrange(0, i as int)),
        decreases nodes@.len() - i,
    {
        proof {
            assert(nv.subrange(0, i + 1).drop_last() =~= nv.subrange(0, i as int));
            assert(nv[i as int] == nodes@[i as int]@);
            assert(node_commands_ok(nv[i as int], add_node_decls(Map::empty(), nv.subrange(0, i as int))));
        }
        push_node_commands(&mut s, &nodes[i], &map);
        match &nodes[i].node_type {
            DagNodeType::Decl(d) => {
                let id = d.identifier.id_name.clone();
                let vd = VarDecl { id, var_info: bit_var_info(&d.var_type.var_info), type_qualifier: d.var_type.type_qualifier };
                map.insert(d.identifier.id_name.clone(), vd);
            },
            _ => {},
        }
        i = i + 1;
    }
    assert(nv.subrange(0, i as int) =~= nv);
    s
}

} // verus!
