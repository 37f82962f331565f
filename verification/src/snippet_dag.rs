use vstd::prelude::*;
use crate::grammar::{
    Identifier, Value, VarType, VarInfo, TypeQualifier, VariableDecl, Statement, Expr, ExprRight,
    Operand, LValue, SpecVarType, SpecVarInfo, SpecVariableDecl, SpecStatement, SpecExpr,
    SpecExprRight, SpecOperand, SpecLValue, SpecIfBlock, SpecSnippet, IfBlock, Snippet, SpecPacket, SpecPacketField, Packets, PacketFields, Snippets, vec_view, decimal_string,
};
use crate::trans_snippet::{DagNode, DagNodeType, SpecDagNode, SpecDagNodeType, P4Code, SpecP4Code, P4Header, NameMap, Dag, SpecDag};
use crate::bmv2_gen::{push_dec, empty_header, field_key, field_key_string};
use crate::def_use::copy_var_type;

verus! {

// ---------------------------------------------------------------------------------------------
// Variable types by name
// ---------------------------------------------------------------------------------------------

pub struct TypeEntry {
    pub key: String,
    pub var_type: VarType,
}

/// Variable types by name, where a later entry for a name hides an earlier one: the types of
/// the variables of a snippet, or of the packet fields by their full name.
pub struct TypeMap {
    pub entries: Vec<TypeEntry>,
}

pub open spec fn type_lookup(entries: Seq<TypeEntry>, k: Seq<char>) -> Option<SpecVarType>
    decreases entries.len(),
{
    if entries.len() == 0 {
        None
    } else if entries.last().key@ == k {
        Some(entries.last().var_type@)
    } else {
        type_lookup(entries.drop_last(), k)
    }
}

impl View for TypeMap {
    type V = Map<Seq<char>, SpecVarType>;

    open spec fn view(&self) -> Map<Seq<char>, SpecVarType> {
        Map::new(|k: Seq<char>| type_lookup(self.entries@, k) is Some, |k: Seq<char>| type_lookup(self.entries@, k)->Some_0)
    }
}

impl TypeMap {
    pub fn new() -> (m: TypeMap)
        ensures m@ == Map::<Seq<char>, SpecVarType>::empty(),
    {
        let m = TypeMap { entries: Vec::new() };
        assert(m@ =~= Map::<Seq<char>, SpecVarType>::empty());
        m
    }

    /// Maps `key` to `var_type`, in place of what it mapped to before.
    pub fn insert(&mut self, key: String, var_type: VarType)
        ensures
            final(self)@ == old(self)@.insert(key@, var_type@),
    {
        let ghost old_map = self@;
        let ghost old_entries = self.entries@;
        let ghost k0 = key@;
        let ghost t0 = var_type@;
        self.entries.push(TypeEntry { key, var_type });
        assert(self.entries@.drop_last() =~= old_entries);
        assert(self@ =~= old_map.insert(k0, t0));
    }

    /// The type that `key` maps to.
    pub fn get(&self, key: &String) -> (r: Option<&VarType>)
        ensures
            match r {
                Some(t) => self@.contains_key(key@) && self@[key@] == t@,
                None => !self@.contains_key(key@),
            },
    {
        let mut i: usize = self.entries.len();
        assert(self.entries@.subrange(0, i as int) =~= self.entries@);
        while i > 0
            invariant
                i <= self.entries@.len(),
                type_lookup(self.entries@, key@) == type_lookup(self.entries@.subrange(0, i as int), key@),
            decreases i,
        {
            let ghost pre = self.entries@.subrange(0, i as int);
            assert(pre.drop_last() =~= self.entries@.subrange(0, i - 1));
            if self.entries[i - 1].key == *key {
                return Some(&self.entries[i - 1].var_type);
            }
            i = i - 1;
        }
        None
    }
}

// ---------------------------------------------------------------------------------------------
// Copies of syntax trees
// ---------------------------------------------------------------------------------------------

pub fn copy_identifier(id: &Identifier) -> (r: Identifier)
    ensures r.id_name@ == id.id_name@,
{
    Identifier { id_name: id.id_name.clone() }
}

pub fn copy_operand(o: &Operand) -> (r: Operand)
    ensures r@ == o@,
    decreases o,
{
    match o {
        Operand::LValue(l) => Operand::LValue(copy_lvalue(l)),
        Operand::Value(v) => Operand::Value(*v),
    }
}

pub fn copy_lvalue(l: &LValue) -> (r: LValue)
    ensures r@ == l@,
    decreases l,
{
    match l {
        LValue::Scalar(id) => LValue::Scalar(copy_identifier(id)),
        LValue::Array(id, b) => {
            let inner = copy_operand(&**b);
            LValue::Array(copy_identifier(id), Box::new(inner))
        },
        LValue::Field(p, f) => LValue::Field(copy_identifier(p), copy_identifier(f)),
    }
}

pub fn copy_expr(e: &Expr) -> (r: Expr)
    ensures r@ == e@,
{
    let op1 = copy_operand(&e.op1);
    let expr_right = match &e.expr_right {
        ExprRight::BinOp(op, o) => ExprRight::BinOp(*op, copy_operand(o)),
        ExprRight::Cond(a, b) => ExprRight::Cond(copy_operand(a), copy_operand(b)),
        ExprRight::Empty() => ExprRight::Empty(),
    };
    Expr { op1, expr_right }
}

pub fn copy_statement(s: &Statement) -> (r: Statement)
    ensures r@ == s@,
{
    Statement { lvalue: copy_lvalue(&s.lvalue), expr: copy_expr(&s.expr) }
}

pub fn copy_variable_decl(d: &VariableDecl) -> (r: VariableDecl)
    ensures r@ == d@,
{
    let mut values: Vec<Value> = Vec::new();
    let mut i: usize = 0;
    while i < d.initial_values.len()
        invariant
            i <= d.initial_values@.len(),
            vec_view(values@) == vec_view(d.initial_values@.take(i as int)),
        decreases d.initial_values@.len() - i,
    {
        let ghost before = values@;
        values.push(d.initial_values[i]);
        proof {
            crate::grammar::lemma_vec_view_push(before, d.initial_values@[i as int]);
            assert(d.initial_values@.take(i + 1) =~= d.initial_values@.take(i as int).push(d.initial_values@[i as int]));
            crate::grammar::lemma_vec_view_push(d.initial_values@.take(i as int), d.initial_values@[i as int]);
        }
        i = i + 1;
    }
    assert(d.initial_values@.take(i as int) =~= d.initial_values@);
    VariableDecl { identifier: copy_identifier(&d.identifier), initial_values: values, var_type: copy_var_type(&d.var_type) }
}

// ---------------------------------------------------------------------------------------------
// Nodes without code or edges
// ---------------------------------------------------------------------------------------------

pub open spec fn blank_code() -> SpecP4Code {
    SpecP4Code {
        p4_header: empty_header(),
        p4_control: Seq::empty(),
        p4_actions: Seq::empty(),
        p4_commons: Seq::empty(),
    }
}

/// A node of the given kind with no code attached, no edges and no precondition.
pub open spec fn blank_node(nt: SpecDagNodeType) -> SpecDagNode {
    SpecDagNode {
        node_type: nt,
        p4_code: blank_code(),
        next_nodes: Seq::empty(),
        prev_nodes: Seq::empty(),
        pre_condition: None,
    }
}

pub open spec fn decl_nodes(ds: Seq<SpecVariableDecl>) -> Seq<SpecDagNode> {
    ds.map_values(|d: SpecVariableDecl| blank_node(SpecDagNodeType::Decl(d)))
}

pub open spec fn stmt_nodes(ss: Seq<SpecStatement>) -> Seq<SpecDagNode> {
    ss.map_values(|s: SpecStatement| blank_node(SpecDagNodeType::Stmt(s)))
}

fn blank_p4code() -> (c: P4Code)
    ensures c@ == blank_code(),
{
    P4Code { p4_header: P4Header::empty(), p4_control: String::new(), p4_actions: String::new(), p4_commons: String::new() }
}

pub fn decl_node(d: VariableDecl) -> (n: DagNode)
    ensures n@ == blank_node(SpecDagNodeType::Decl(d@)),
{
    DagNode { node_type: DagNodeType::Decl(d), p4_code: blank_p4code(), next_nodes: Vec::new(), prev_nodes: Vec::new(), pre_condition: None }
}

pub fn stmt_node(s: Statement) -> (n: DagNode)
    ensures n@ == blank_node(SpecDagNodeType::Stmt(s@)),
{
    DagNode { node_type: DagNodeType::Stmt(s), p4_code: blank_p4code(), next_nodes: Vec::new(), prev_nodes: Vec::new(), pre_condition: None }
}

proof fn lemma_decl_nodes_push(ds: Seq<SpecVariableDecl>, d: SpecVariableDecl)
    ensures decl_nodes(ds.push(d)) == decl_nodes(ds).push(blank_node(SpecDagNodeType::Decl(d))),
{
    assert(decl_nodes(ds.push(d)) =~= decl_nodes(ds).push(blank_node(SpecDagNodeType::Decl(d))));
}

proof fn lemma_stmt_nodes_push(ss: Seq<SpecStatement>, s: SpecStatement)
    ensures stmt_nodes(ss.push(s)) == stmt_nodes(ss).push(blank_node(SpecDagNodeType::Stmt(s))),
{
    assert(stmt_nodes(ss.push(s)) =~= stmt_nodes(ss).push(blank_node(SpecDagNodeType::Stmt(s))));
}

// ---------------------------------------------------------------------------------------------
// Names of the variables that branch removal introduces
// ---------------------------------------------------------------------------------------------

/// The one-bit variable that holds the condition of `if` block `id`.
pub open spec fn if_var_name(id: u64) -> Seq<char> {
    "if_block_tmp_"@ + decimal_string(id as nat)
}

/// The temporary that holds the right-hand side of the `count`-th conditional assignment
/// with a compound right-hand side, in block `id`.
pub open spec fn tmp_var_name(count: nat, id: u64) -> Seq<char> {
    "tmp_"@ + decimal_string(count) + "_if_"@ + decimal_string(id as nat)
}

fn if_var_string(id: u64) -> (s: String)
    ensures s@ == if_var_name(id),
{
    let mut s = String::new();
    s.append("if_block_tmp_");
    push_dec(&mut s, id);
    s
}

fn tmp_var_string(count: usize, id: u64) -> (s: String)
    ensures s@ == tmp_var_name(count as nat, id),
{
    let mut s = String::new();
    s.append("tmp_");
    push_dec(&mut s, count as u64);
    s.append("_if_");
    push_dec(&mut s, id);
    s
}

// ---------------------------------------------------------------------------------------------
// Branch removal: `if` and `else` blocks become straight-line ternary assignments
// ---------------------------------------------------------------------------------------------

/// The types of a snippet's variables by name; a later declaration of a name hides an earlier
/// one.
pub open spec fn decl_types(ds: Seq<SpecVariableDecl>) -> Map<Seq<char>, SpecVarType>
    decreases ds.len(),
{
    if ds.len() == 0 {
        Map::empty()
    } else {
        decl_types(ds.drop_last()).insert(ds.last().identifier, ds.last().var_type)
    }
}

/// The bit width of a variable; a packet counts as zero bits wide.
pub open spec fn bit_width(vi: SpecVarInfo) -> u32 {
    match vi {
        SpecVarInfo::BitArray(w, _) => w,
        SpecVarInfo::Packet(_) => 0,
    }
}

/// The type of an assigned variable is known: a variable of the snippet, or a packet field that
/// the packet map resolves to a field of known type.
pub open spec fn target_typed(lv: SpecLValue, syms: Map<Seq<char>, SpecVarType>, pmap: Map<Seq<char>, Seq<char>>,
    fmap: Map<Seq<char>, SpecVarType>) -> bool
{
    match lv {
        SpecLValue::Scalar(id) => syms.contains_key(id),
        SpecLValue::Array(id, _) => syms.contains_key(id),
        SpecLValue::Field(p, f) => pmap.contains_key(field_key(p, f)) && fmap.contains_key(pmap[field_key(p, f)]),
    }
}

/// The shape of the temporary that holds a new value for `lv`: that of the variable, of one
/// element of the array, or of the field.
pub open spec fn tmp_info(lv: SpecLValue, syms: Map<Seq<char>, SpecVarType>, pmap: Map<Seq<char>, Seq<char>>,
    fmap: Map<Seq<char>, SpecVarType>) -> SpecVarInfo
{
    match lv {
        SpecLValue::Scalar(id) => syms[id].var_info,
        SpecLValue::Array(id, _) => SpecVarInfo::BitArray(bit_width(syms[id].var_info), 1),
        SpecLValue::Field(p, f) => SpecVarInfo::BitArray(bit_width(fmap[pmap[field_key(p, f)]].var_info), 1),
    }
}

pub open spec fn scalar_operand(name: Seq<char>) -> SpecOperand {
    SpecOperand::LValue(SpecLValue::Scalar(name))
}

/// The ternary that replaces an assignment in block `id`: in an `if` block it picks the new
/// value where the block's condition bit is set; in an `else` block it picks the new value
/// where the condition bit of the block before it is clear.
pub open spec fn select_expr(id: u64, condtype: u64, new_val: SpecOperand, old_val: SpecOperand) -> SpecExpr {
    if condtype == 1 {
        SpecExpr { op1: scalar_operand(if_var_name(id)), expr_right: SpecExprRight::Cond(new_val, old_val) }
    } else if condtype == 2 {
        SpecExpr { op1: scalar_operand(if_var_name((id - 1) as u64)), expr_right: SpecExprRight::Cond(old_val, new_val) }
    } else {
        SpecExpr {
            op1: scalar_operand(Seq::empty()),
            expr_right: SpecExprRight::Cond(scalar_operand(Seq::empty()), scalar_operand(Seq::empty())),
        }
    }
}

/// What branch removal has produced so far: the declarations of the variables it introduces,
/// the statements, and how many temporaries it has numbered.
#[verifier::ext_equal]
pub struct Removed {
    pub decls: Seq<SpecVariableDecl>,
    pub stmts: Seq<SpecStatement>,
    pub count: nat,
}

/// A transient variable without initial values.
pub open spec fn transient_decl(name: Seq<char>, info: SpecVarInfo) -> SpecVariableDecl {
    SpecVariableDecl {
        identifier: name,
        initial_values: Seq::empty(),
        var_type: SpecVarType { var_info: info, type_qualifier: TypeQualifier::Transient },
    }
}

/// One statement of a conditional block. A plain copy `x = a` becomes `x = c ? a : x`; any
/// other right-hand side is first computed into a fresh temporary `t`, and `x = c ? t : x`
/// follows.
pub open spec fn removed_stmt(id: u64, condtype: u64, s: SpecStatement, acc: Removed,
    syms: Map<Seq<char>, SpecVarType>, pmap: Map<Seq<char>, Seq<char>>, fmap: Map<Seq<char>, SpecVarType>) -> Removed
{
    if s.expr.expr_right is Empty {
        Removed {
            decls: acc.decls,
            stmts: acc.stmts.push(SpecStatement {
                lvalue: s.lvalue,
                expr: select_expr(id, condtype, s.expr.op1, SpecOperand::LValue(s.lvalue)),
            }),
            count: acc.count,
        }
    } else {
        let tmp = tmp_var_name(acc.count, id);
        Removed {
            decls: acc.decls.push(transient_decl(tmp, tmp_info(s.lvalue, syms, pmap, fmap))),
            stmts: acc.stmts.push(SpecStatement { lvalue: SpecLValue::Scalar(tmp), expr: s.expr }).push(SpecStatement {
                lvalue: s.lvalue,
                expr: select_expr(id, condtype, scalar_operand(tmp), SpecOperand::LValue(s.lvalue)),
            }),
            count: acc.count + 1,
        }
    }
}

pub open spec fn removed_stmts(id: u64, condtype: u64, ss: Seq<SpecStatement>, start: Removed,
    syms: Map<Seq<char>, SpecVarType>, pmap: Map<Seq<char>, Seq<char>>, fmap: Map<Seq<char>, SpecVarType>) -> Removed
    decreases ss.len(),
{
    if ss.len() == 0 {
        start
    } else {
        removed_stmt(id, condtype, ss.last(), removed_stmts(id, condtype, ss.drop_last(), start, syms, pmap, fmap), syms, pmap, fmap)
    }
}

/// One block: unconditional statements stay as they are; an `if` block first declares its
/// condition bit and sets it to the condition; then each statement of a conditional block
/// becomes a ternary.
pub open spec fn removed_block(b: SpecIfBlock, acc: Removed,
    syms: Map<Seq<char>, SpecVarType>, pmap: Map<Seq<char>, Seq<char>>, fmap: Map<Seq<char>, SpecVarType>) -> Removed
{
    if b.condtype == 3 {
        Removed { decls: acc.decls, stmts: acc.stmts + b.statements, count: acc.count }
    } else {
        let start = if b.condtype == 1 {
            Removed {
                decls: acc.decls.push(transient_decl(if_var_name(b.id), SpecVarInfo::BitArray(1, 1))),
                stmts: acc.stmts.push(SpecStatement { lvalue: SpecLValue::Scalar(if_var_name(b.id)), expr: b.condition }),
                count: acc.count,
            }
        } else {
            acc
        };
        removed_stmts(b.id, b.condtype, b.statements, start, syms, pmap, fmap)
    }
}

pub open spec fn removed_blocks(bs: Seq<SpecIfBlock>, syms: Map<Seq<char>, SpecVarType>,
    pmap: Map<Seq<char>, Seq<char>>, fmap: Map<Seq<char>, SpecVarType>) -> Removed
    decreases bs.len(),
{
    if bs.len() == 0 {
        Removed { decls: Seq::empty(), stmts: Seq::empty(), count: 0 }
    } else {
        removed_block(bs.last(), removed_blocks(bs.drop_last(), syms, pmap, fmap), syms, pmap, fmap)
    }
}

/// What branch removal makes of a snippet, given the packet map and the types of the packet
/// fields.
pub open spec fn removal(sn: SpecSnippet, pmap: Map<Seq<char>, Seq<char>>, fmap: Map<Seq<char>, SpecVarType>) -> Removed {
    removed_blocks(sn.ifblocks, decl_types(sn.variable_decls), pmap, fmap)
}

/// The nodes that one statement of a block of kind `condtype` turns into: one, or three where a
/// conditional statement computes its right-hand side into a temporary (its declaration, the
/// computation and the ternary).
pub open spec fn stmt_node_count(condtype: u64, s: SpecStatement) -> nat {
    if condtype == 3 || s.expr.expr_right is Empty { 1 } else { 3 }
}

pub open spec fn stmts_node_count(condtype: u64, ss: Seq<SpecStatement>) -> nat
    decreases ss.len(),
{
    if ss.len() == 0 { 0 } else { stmts_node_count(condtype, ss.drop_last()) + stmt_node_count(condtype, ss.last()) }
}

/// The nodes that a block turns into: an `if` block adds its condition bit and the statement
/// that sets it.
pub open spec fn block_node_count(b: SpecIfBlock) -> nat {
    (if b.condtype == 1 { 2nat } else { 0nat }) + stmts_node_count(b.condtype, b.statements)
}

pub open spec fn blocks_node_count(bs: Seq<SpecIfBlock>) -> nat
    decreases bs.len(),
{
    if bs.len() == 0 { 0 } else { blocks_node_count(bs.drop_last()) + block_node_count(bs.last()) }
}

proof fn lemma_removed_stmts_count(id: u64, condtype: u64, ss: Seq<SpecStatement>, start: Removed,
    syms: Map<Seq<char>, SpecVarType>, pmap: Map<Seq<char>, Seq<char>>, fmap: Map<Seq<char>, SpecVarType>)
    requires condtype != 3,
    ensures ({
        let r = removed_stmts(id, condtype, ss, start, syms, pmap, fmap);
        r.decls.len() + r.stmts.len() == start.decls.len() + start.stmts.len() + stmts_node_count(condtype, ss)
    }),
    decreases ss.len(),
{
    if ss.len() > 0 {
        lemma_removed_stmts_count(id, condtype, ss.drop_last(), start, syms, pmap, fmap);
    }
}

proof fn lemma_plain_stmts_count(ss: Seq<SpecStatement>)
    ensures stmts_node_count(3, ss) == ss.len(),
    decreases ss.len(),
{
    if ss.len() > 0 {
        lemma_plain_stmts_count(ss.drop_last());
    }
}

/// Branch removal adds, after the graph's nodes and the snippet's declarations, exactly
/// `blocks_node_count` nodes, and none of the new nodes has an edge, code or precondition.
pub proof fn lemma_removal_node_count(dag: Seq<SpecDagNode>, sn: SpecSnippet, pmap: Map<Seq<char>, Seq<char>>,
    fmap: Map<Seq<char>, SpecVarType>)
    ensures ({
        let r = removal(sn, pmap, fmap);
        let out = dag + decl_nodes(sn.variable_decls) + decl_nodes(r.decls) + stmt_nodes(r.stmts);
        &&& out.len() == dag.len() + sn.variable_decls.len() + blocks_node_count(sn.ifblocks)
        &&& forall|k: int| dag.len() <= k < out.len() ==> {
            &&& (#[trigger] out[k]).next_nodes.len() == 0
            &&& out[k].prev_nodes.len() == 0
            &&& out[k].pre_condition is None
            &&& out[k].p4_code == blank_code()
        }
    }),
{
    lemma_removed_blocks_count(sn.ifblocks, decl_types(sn.variable_decls), pmap, fmap);
    let r = removal(sn, pmap, fmap);
    let out = dag + decl_nodes(sn.variable_decls) + decl_nodes(r.decls) + stmt_nodes(r.stmts);
    assert forall|k: int| dag.len() <= k < out.len() implies {
        &&& (#[trigger] out[k]).next_nodes.len() == 0
        &&& out[k].prev_nodes.len() == 0
        &&& out[k].pre_condition is None
        &&& out[k].p4_code == blank_code()
    } by {
        let a = dag.len() + sn.variable_decls.len();
        let b = a + r.decls.len();
        if k < a {
            assert(out[k] == decl_nodes(sn.variable_decls)[k - dag.len()]);
        } else if k < b {
            assert(out[k] == decl_nodes(r.decls)[k - a]);
        } else {
            assert(out[k] == stmt_nodes(r.stmts)[k - b]);
        }
    }
}

proof fn lemma_removed_blocks_count(bs: Seq<SpecIfBlock>, syms: Map<Seq<char>, SpecVarType>,
    pmap: Map<Seq<char>, Seq<char>>, fmap: Map<Seq<char>, SpecVarType>)
    ensures ({
        let r = removed_blocks(bs, syms, pmap, fmap);
        r.decls.len() + r.stmts.len() == blocks_node_count(bs)
    }),
    decreases bs.len(),
{
    if bs.len() > 0 {
        let b = bs.last();
        let acc = removed_blocks(bs.drop_last(), syms, pmap, fmap);
        lemma_removed_blocks_count(bs.drop_last(), syms, pmap, fmap);
        if b.condtype == 3 {
            lemma_plain_stmts_count(b.statements);
        } else {
            let start = if b.condtype == 1 {
                Removed {
                    decls: acc.decls.push(transient_decl(if_var_name(b.id), SpecVarInfo::BitArray(1, 1))),
                    stmts: acc.stmts.push(SpecStatement { lvalue: SpecLValue::Scalar(if_var_name(b.id)), expr: b.condition }),
                    count: acc.count,
                }
            } else {
                acc
            };
            lemma_removed_stmts_count(b.id, b.condtype, b.statements, start, syms, pmap, fmap);
        }
    }
}

/// A block can be rewritten: an `else` block with statements has a number above zero (it refers
/// to the condition bit of the block before it), and each statement of a conditional block that
/// needs a temporary assigns a variable of known type.
pub open spec fn block_removable(b: SpecIfBlock, syms: Map<Seq<char>, SpecVarType>, pmap: Map<Seq<char>, Seq<char>>,
    fmap: Map<Seq<char>, SpecVarType>) -> bool
{
    &&& (b.condtype == 2 && b.statements.len() > 0 ==> b.id >= 1)
    &&& (b.condtype != 3 ==> forall|m: int| 0 <= m < b.statements.len() && !(b.statements[m].expr.expr_right is Empty)
            ==> target_typed(#[trigger] b.statements[m].lvalue, syms, pmap, fmap))
}

pub open spec fn removable(sn: SpecSnippet, pmap: Map<Seq<char>, Seq<char>>, fmap: Map<Seq<char>, SpecVarType>) -> bool {
    forall|k: int| 0 <= k < sn.ifblocks.len() ==> block_removable(#[trigger] sn.ifblocks[k], decl_types(sn.variable_decls), pmap, fmap)
}

fn target_typed_exec(lv: &LValue, syms: &TypeMap, pmap: &NameMap, fmap: &TypeMap) -> (b: bool)
    ensures b == target_typed(lv@, syms@, pmap@, fmap@),
{
    match lv {
        LValue::Scalar(id) => syms.get(&id.id_name).is_some(),
        LValue::Array(id, _) => syms.get(&id.id_name).is_some(),
        LValue::Field(p, f) => {
            let key = field_key_string(&p.id_name, &f.id_name);
            match pmap.get(&key) {
                Some(name) => fmap.get(name).is_some(),
                None => false,
            }
        },
    }
}

fn block_removable_exec(b: &IfBlock, syms: &TypeMap, pmap: &NameMap, fmap: &TypeMap) -> (r: bool)
    ensures r == block_removable(b@, syms@, pmap@, fmap@),
{
    let ss = &b.statements.stmt_vector;
    let ghost bs = b@.statements;
    assert(bs.len() == ss@.len());
    if b.condtype == 2 && ss.len() > 0 && b.id < 1 {
        return false;
    }
    if b.condtype != 3 {
        let mut i: usize = 0;
        while i < ss.len()
            invariant
                i <= ss@.len(),
                b.condtype != 3,
                bs == b@.statements,
                bs == vec_view(ss@),
                forall|m: int| 0 <= m < i && !(bs[m].expr.expr_right is Empty) ==> target_typed(#[trigger] bs[m].lvalue, syms@, pmap@, fmap@),
            decreases ss@.len() - i,
        {
            let s = &ss[i];
            assert(bs[i as int] == s@);
            let empty_right = match &s.expr.expr_right {
                ExprRight::Empty() => true,
                _ => false,
            };
            assert(empty_right == (bs[i as int].expr.expr_right is Empty));
            if !empty_right && !target_typed_exec(&s.lvalue, syms, pmap, fmap) {
                assert(!target_typed(bs[i as int].lvalue, syms@, pmap@, fmap@));
                return false;
            }
            i = i + 1;
        }
    }
    true
}

/// The types of a snippet's variables by name (`decl_types`).
pub fn snippet_types(my_snippet: &Snippet) -> (m: TypeMap)
    ensures m@ == decl_types(my_snippet@.variable_decls),
{
    let ds = &my_snippet.variable_decls.decl_vector;
    let ghost dv = my_snippet@.variable_decls;
    let mut syms = TypeMap::new();
    let mut i: usize = 0;
    assert(dv.take(0) =~= Seq::<SpecVariableDecl>::empty());
    while i < ds.len()
        invariant
            i <= ds@.len(),
            dv == vec_view(ds@),
            syms@ == decl_types(dv.take(i as int)),
        decreases ds@.len() - i,
    {
        let d = &ds[i];
        syms.insert(d.identifier.id_name.clone(), copy_var_type(&d.var_type));
        assert(dv.take(i + 1).drop_last() =~= dv.take(i as int));
        assert(dv.take(i + 1).last() == d@);
        i = i + 1;
    }
    assert(dv.take(i as int) =~= dv);
    syms
}

/// Whether branch removal accepts the snippet (`removable`).
pub fn snippet_removable(my_snippet: &Snippet, packet_map: &NameMap, field_decls: &TypeMap) -> (b: bool)
    ensures b == removable(my_snippet@, packet_map@, field_decls@),
{
    let syms = snippet_types(my_snippet);
    let bs = &my_snippet.ifblocks.ifblock_vector;
    let ghost sn = my_snippet@;
    let mut j: usize = 0;
    while j < bs.len()
        invariant
            j <= bs@.len(),
            sn == my_snippet@,
            sn.ifblocks == vec_view(bs@),
            syms@ == decl_types(sn.variable_decls),
            forall|k: int| 0 <= k < j ==> block_removable(#[trigger] sn.ifblocks[k], decl_types(sn.variable_decls), packet_map@, field_decls@),
        decreases bs@.len() - j,
    {
        assert(sn.ifblocks[j as int] == bs@[j as int]@);
        if !block_removable_exec(&bs[j], &syms, packet_map, field_decls) {
            return false;
        }
        j = j + 1;
    }
    true
}

fn scalar_operand_exec(name: String) -> (o: Operand)
    ensures o@ == scalar_operand(name@),
{
    Operand::LValue(LValue::Scalar(Identifier { id_name: name }))
}

fn select_expr_exec(id: u64, condtype: u64, new_val: Operand, old_val: Operand) -> (e: Expr)
    requires condtype == 2 ==> id >= 1,
    ensures e@ == select_expr(id, condtype, new_val@, old_val@),
{
    if condtype == 1 {
        Expr { op1: scalar_operand_exec(if_var_string(id)), expr_right: ExprRight::Cond(new_val, old_val) }
    } else if condtype == 2 {
        Expr { op1: scalar_operand_exec(if_var_string(id - 1)), expr_right: ExprRight::Cond(old_val, new_val) }
    } else {
        Expr {
            op1: scalar_operand_exec(String::new()),
            expr_right: ExprRight::Cond(scalar_operand_exec(String::new()), scalar_operand_exec(String::new())),
        }
    }
}

fn width_of(vi: &VarInfo) -> (w: u32)
    ensures w == bit_width(vi@),
{
    match vi {
        VarInfo::BitArray(w, _) => *w,
        VarInfo::Packet(_) => 0,
    }
}

fn tmp_var_info(lv: &LValue, syms: &TypeMap, pmap: &NameMap, fmap: &TypeMap) -> (r: VarInfo)
    requires target_typed(lv@, syms@, pmap@, fmap@),
    ensures r@ == tmp_info(lv@, syms@, pmap@, fmap@),
{
    match lv {
        LValue::Scalar(id) => {
            let t = syms.get(&id.id_name).unwrap();
            copy_var_type(t).var_info
        },
        LValue::Array(id, _) => {
            let t = syms.get(&id.id_name).unwrap();
            VarInfo::BitArray(width_of(&t.var_info), 1)
        },
        LValue::Field(p, f) => {
            let key = field_key_string(&p.id_name, &f.id_name);
            let name = pmap.get(&key).unwrap();
            let t = fmap.get(name).unwrap();
            VarInfo::BitArray(width_of(&t.var_info), 1)
        },
    }
}

fn transient_decl_exec(name: String, info: VarInfo) -> (d: VariableDecl)
    ensures d@ == transient_decl(name@, info@),
{
    let d = VariableDecl {
        identifier: Identifier { id_name: name },
        initial_values: Vec::new(),
        var_type: VarType { var_info: info, type_qualifier: TypeQualifier::Transient },
    };
    assert(d@.initial_values =~= Seq::<u32>::empty());
    d
}

/// Appends the nodes for one statement of a conditional block.
fn remove_statement(id: u64, condtype: u64, s: &Statement, syms: &TypeMap, pmap: &NameMap, fmap: &TypeMap,
    decls: &mut Vec<DagNode>, stmts: &mut Vec<DagNode>, count: &mut usize, Ghost(acc): Ghost<Removed>)
    requires
        vec_view(old(decls)@) == decl_nodes(acc.decls),
        vec_view(old(stmts)@) == stmt_nodes(acc.stmts),
        *old(count) as nat == acc.count,
        2 * *old(count) <= old(stmts)@.len(),
        condtype == 2 ==> id >= 1,
        !(s@.expr.expr_right is Empty) ==> target_typed(s@.lvalue, syms@, pmap@, fmap@),
    ensures
        vec_view(final(decls)@) == decl_nodes(removed_stmt(id, condtype, s@, acc, syms@, pmap@, fmap@).decls),
        vec_view(final(stmts)@) == stmt_nodes(removed_stmt(id, condtype, s@, acc, syms@, pmap@, fmap@).stmts),
        *final(count) as nat == removed_stmt(id, condtype, s@, acc, syms@, pmap@, fmap@).count,
        2 * *final(count) <= final(stmts)@.len(),
{
    let ghost r = removed_stmt(id, condtype, s@, acc, syms@, pmap@, fmap@);
    let empty_right = match &s.expr.expr_right {
        ExprRight::Empty() => true,
        _ => false,
    };
    let old_val = Operand::LValue(copy_lvalue(&s.lvalue));
    if empty_right {
        let e = select_expr_exec(id, condtype, copy_operand(&s.expr.op1), old_val);
        let st = Statement { lvalue: copy_lvalue(&s.lvalue), expr: e };
        let ghost before = stmts@;
        stmts.push(stmt_node(st));
        proof {
            crate::grammar::lemma_vec_view_push(before, stmts@.last());
            lemma_stmt_nodes_push(acc.stmts, st@);
        }
    } else {
        let info = tmp_var_info(&s.lvalue, syms, pmap, fmap);
        let tmp_decl = transient_decl_exec(tmp_var_string(*count, id), info);
        let ghost before_d = decls@;
        decls.push(decl_node(tmp_decl));
        proof {
            crate::grammar::lemma_vec_view_push(before_d, decls@.last());
            lemma_decl_nodes_push(acc.decls, r.decls.last());
        }
        let tmp_stmt = Statement {
            lvalue: LValue::Scalar(Identifier { id_name: tmp_var_string(*count, id) }),
            expr: copy_expr(&s.expr),
        };
        let ghost s1 = tmp_stmt@;
        let ghost before_s = stmts@;
        stmts.push(stmt_node(tmp_stmt));
        proof {
            crate::grammar::lemma_vec_view_push(before_s, stmts@.last());
            lemma_stmt_nodes_push(acc.stmts, s1);
        }
        let e = select_expr_exec(id, condtype, scalar_operand_exec(tmp_var_string(*count, id)), old_val);
        let st = Statement { lvalue: copy_lvalue(&s.lvalue), expr: e };
        let ghost before_s2 = stmts@;
        stmts.push(stmt_node(st));
        proof {
            crate::grammar::lemma_vec_view_push(before_s2, stmts@.last());
            lemma_stmt_nodes_push(acc.stmts.push(s1), st@);
        }
        assert(stmts@.len() <= usize::MAX) by {
            assert(stmts.len() == stmts@.len());
        }
        *count = *count + 1;
    }
}

/// Appends the nodes for one block.
fn remove_block(b: &IfBlock, syms: &TypeMap, pmap: &NameMap, fmap: &TypeMap,
    decls: &mut Vec<DagNode>, stmts: &mut Vec<DagNode>, count: &mut usize, Ghost(acc): Ghost<Removed>)
    requires
        vec_view(old(decls)@) == decl_nodes(acc.decls),
        vec_view(old(stmts)@) == stmt_nodes(acc.stmts),
        *old(count) as nat == acc.count,
        2 * *old(count) <= old(stmts)@.len(),
        block_removable(b@, syms@, pmap@, fmap@),
    ensures
        vec_view(final(decls)@) == decl_nodes(removed_block(b@, acc, syms@, pmap@, fmap@).decls),
        vec_view(final(stmts)@) == stmt_nodes(removed_block(b@, acc, syms@, pmap@, fmap@).stmts),
        *final(count) as nat == removed_block(b@, acc, syms@, pmap@, fmap@).count,
        2 * *final(count) <= final(stmts)@.len(),
{
    let ss = &b.statements.stmt_vector;
    let ghost bs = b@.statements;
    if b.condtype == 3 {
        let mut i: usize = 0;
        while i < ss.len()
            invariant
                b.condtype == 3,
                bs == vec_view(ss@),
                bs == b@.statements,
                i <= ss@.len(),
                vec_view(decls@) == decl_nodes(acc.decls),
                vec_view(stmts@) == stmt_nodes(acc.stmts + bs.take(i as int)),
                *count as nat == acc.count,
                2 * *count <= stmts@.len(),
            decreases ss@.len() - i,
        {
            let st = copy_statement(&ss[i]);
            let ghost before = stmts@;
            stmts.push(stmt_node(st));
            proof {
                crate::grammar::lemma_vec_view_push(before, stmts@.last());
                lemma_stmt_nodes_push(acc.stmts + bs.take(i as int), bs[i as int]);
                assert(acc.stmts + bs.take(i + 1) =~= (acc.stmts + bs.take(i as int)).push(bs[i as int]));
            }
            i = i + 1;
        }
        assert(bs.take(i as int) =~= bs);
    } else {
        let ghost start = if b.condtype == 1 {
            Removed {
                decls: acc.decls.push(transient_decl(if_var_name(b.id), SpecVarInfo::BitArray(1, 1))),
                stmts: acc.stmts.push(SpecStatement { lvalue: SpecLValue::Scalar(if_var_name(b.id)), expr: b@.condition }),
                count: acc.count,
            }
        } else {
            acc
        };
        if b.condtype == 1 {
            let d = transient_decl_exec(if_var_string(b.id), VarInfo::BitArray(1, 1));
            let ghost before_d = decls@;
            decls.push(decl_node(d));
            proof {
                crate::grammar::lemma_vec_view_push(before_d, decls@.last());
                lemma_decl_nodes_push(acc.decls, start.decls.last());
            }
            let st = Statement {
                lvalue: LValue::Scalar(Identifier { id_name: if_var_string(b.id) }),
                expr: copy_expr(&b.condition.expr),
            };
            let ghost before_s = stmts@;
            stmts.push(stmt_node(st));
            proof {
                crate::grammar::lemma_vec_view_push(before_s, stmts@.last());
                lemma_stmt_nodes_push(acc.stmts, start.stmts.last());
            }
        }
        assert(bs.take(0) =~= Seq::<SpecStatement>::empty());
        let mut i: usize = 0;
        while i < ss.len()
            invariant
                b.condtype != 3,
                bs == vec_view(ss@),
                bs == b@.statements,
                block_removable(b@, syms@, pmap@, fmap@),
                i <= ss@.len(),
                vec_view(decls@) == decl_nodes(removed_stmts(b.id, b.condtype, bs.take(i as int), start, syms@, pmap@, fmap@).decls),
                vec_view(stmts@) == stmt_nodes(removed_stmts(b.id, b.condtype, bs.take(i as int), start, syms@, pmap@, fmap@).stmts),
                *count as nat == removed_stmts(b.id, b.condtype, bs.take(i as int), start, syms@, pmap@, fmap@).count,
                2 * *count <= stmts@.len(),
            decreases ss@.len() - i,
        {
            let ghost cur = removed_stmts(b.id, b.condtype, bs.take(i as int), start, syms@, pmap@, fmap@);
            assert(bs[i as int] == ss@[i as int]@);
            proof {
                if !(bs[i as int].expr.expr_right is Empty) {
                    assert(target_typed(bs[i as int].lvalue, syms@, pmap@, fmap@));
                }
            }
            remove_statement(b.id, b.condtype, &ss[i], syms, pmap, fmap, decls, stmts, count, Ghost(cur));
            assert(bs.take(i + 1).drop_last() =~= bs.take(i as int));
            i = i + 1;
        }
        assert(bs.take(i as int) =~= bs);
    }
}

proof fn lemma_vec_view_add<T: View>(a: Seq<T>, b: Seq<T>)
    ensures vec_view(a + b) == vec_view(a) + vec_view(b),
{
    assert(vec_view(a + b) =~= vec_view(a) + vec_view(b));
}

/// Turns the `if` and `else` blocks of a snippet into straight-line code and appends it to the
/// graph: first a node for each variable of the snippet, then one for each variable that branch
/// removal introduces (condition bits and temporaries), then one for each statement, in order.
pub fn branch_removal(my_dag: &mut Dag, packet_map: &NameMap, my_snippet: &Snippet, field_decls: &TypeMap)
    requires
        removable(my_snippet@, packet_map@, field_decls@),
    ensures
        final(my_dag)@.snippet_id == old(my_dag)@.snippet_id,
        final(my_dag)@.device_type == old(my_dag)@.device_type,
        final(my_dag)@.device_vector == old(my_dag)@.device_vector,
        final(my_dag)@.dag_vector == old(my_dag)@.dag_vector + decl_nodes(my_snippet@.variable_decls)
            + decl_nodes(removal(my_snippet@, packet_map@, field_decls@).decls)
            + stmt_nodes(removal(my_snippet@, packet_map@, field_decls@).stmts),
{
    let ghost dag0 = my_dag@;
    let ghost sn = my_snippet@;
    let ds = &my_snippet.variable_decls.decl_vector;
    let mut syms = TypeMap::new();
    let mut i: usize = 0;
    assert(sn.variable_decls.take(0) =~= Seq::<SpecVariableDecl>::empty());
    assert(dag0.dag_vector + decl_nodes(sn.variable_decls.take(0)) =~= dag0.dag_vector);
    while i < ds.len()
        invariant
            sn == my_snippet@,
            i <= ds@.len(),
            sn.variable_decls == vec_view(ds@),
            my_dag@.snippet_id == dag0.snippet_id,
            my_dag@.device_type == dag0.device_type,
            my_dag@.device_vector == dag0.device_vector,
            my_dag@.dag_vector == dag0.dag_vector + decl_nodes(sn.variable_decls.take(i as int)),
            syms@ == decl_types(sn.variable_decls.take(i as int)),
        decreases ds@.len() - i,
    {
        let d = &ds[i];
        let ghost before = my_dag.dag_vector@;
        my_dag.dag_vector.push(decl_node(copy_variable_decl(d)));
        syms.insert(d.identifier.id_name.clone(), copy_var_type(&d.var_type));
        proof {
            crate::grammar::lemma_vec_view_push(before, my_dag.dag_vector@.last());
            let pre = sn.variable_decls.take(i as int);
            assert(sn.variable_decls.take(i + 1) =~= pre.push(sn.variable_decls[i as int]));
            assert(sn.variable_decls.take(i + 1).drop_last() =~= pre);
            lemma_decl_nodes_push(pre, sn.variable_decls[i as int]);
            assert(dag0.dag_vector + decl_nodes(pre).push(blank_node(SpecDagNodeType::Decl(sn.variable_decls[i as int])))
                =~= (dag0.dag_vector + decl_nodes(pre)).push(blank_node(SpecDagNodeType::Decl(sn.variable_decls[i as int]))));
        }
        i = i + 1;
    }
    assert(sn.variable_decls.take(i as int) =~= sn.variable_decls);
    let ghost syms_v = syms@;
    assert(syms_v == decl_types(sn.variable_decls));

    let bs = &my_snippet.ifblocks.ifblock_vector;
    let mut new_decls: Vec<DagNode> = Vec::new();
    let mut stmts: Vec<DagNode> = Vec::new();
    let mut count: usize = 0;
    assert(sn.ifblocks.take(0) =~= Seq::<SpecIfBlock>::empty());
    assert(vec_view(new_decls@) =~= decl_nodes(Seq::empty()));
    assert(vec_view(stmts@) =~= stmt_nodes(Seq::empty()));
    let mut j: usize = 0;
    while j < bs.len()
        invariant
            sn == my_snippet@,
            sn.ifblocks == vec_view(bs@),
            syms@ == decl_types(sn.variable_decls),
            removable(sn, packet_map@, field_decls@),
            j <= bs@.len(),
            vec_view(new_decls@) == decl_nodes(removed_blocks(sn.ifblocks.take(j as int), syms@, packet_map@, field_decls@).decls),
            vec_view(stmts@) == stmt_nodes(removed_blocks(sn.ifblocks.take(j as int), syms@, packet_map@, field_decls@).stmts),
            count as nat == removed_blocks(sn.ifblocks.take(j as int), syms@, packet_map@, field_decls@).count,
            2 * count <= stmts@.len(),
        decreases bs@.len() - j,
    {
        let ghost cur = removed_blocks(sn.ifblocks.take(j as int), syms@, packet_map@, field_decls@);
        assert(sn.ifblocks[j as int] == bs@[j as int]@);
        assert(block_removable(sn.ifblocks[j as int], syms@, packet_map@, field_decls@));
        remove_block(&bs[j], &syms, packet_map, field_decls, &mut new_decls, &mut stmts, &mut count, Ghost(cur));
        assert(sn.ifblocks.take(j + 1).drop_last() =~= sn.ifblocks.take(j as int));
        j = j + 1;
    }
    assert(sn.ifblocks.take(j as int) =~= sn.ifblocks);
    let ghost mid = my_dag.dag_vector@;
    let ghost nd = new_decls@;
    let ghost ns = stmts@;
    my_dag.dag_vector.append(&mut new_decls);
    my_dag.dag_vector.append(&mut stmts);
    proof {
        lemma_vec_view_add(mid, nd);
        lemma_vec_view_add(mid + nd, ns);
    }
}

// ---------------------------------------------------------------------------------------------
// Declarations of the packet fields
// ---------------------------------------------------------------------------------------------

/// A variable without initial values.
pub open spec fn field_var_decl(name: Seq<char>, t: SpecVarType) -> SpecVariableDecl {
    SpecVariableDecl { identifier: name, initial_values: Seq::empty(), var_type: t }
}

/// Declarations of the fields, each named by `prefix` followed by the field's name.
pub open spec fn prefixed_field_decls(prefix: Seq<char>, fields: Seq<SpecPacketField>) -> Seq<SpecVariableDecl> {
    fields.map_values(|f: SpecPacketField| field_var_decl(prefix + f.identifier, f.var_type))
}

/// The fields of the library packets as parts of packet `pid`: `pid.` followed by the library
/// packet's name and the field's name.
pub open spec fn nested_field_decls(pid: Seq<char>, tree: Seq<SpecPacket>) -> Seq<SpecVariableDecl>
    decreases tree.len(),
{
    if tree.len() == 0 {
        Seq::empty()
    } else {
        nested_field_decls(pid, tree.drop_last()) + prefixed_field_decls(pid + "."@ + tree.last().packet_id, tree.last().packet_fields)
    }
}

/// For each packet of the program in order: its own fields as `packet.field`, then the fields
/// of the library packets inside it.
pub open spec fn packet_field_decls(packets: Seq<SpecPacket>, tree: Seq<SpecPacket>) -> Seq<SpecVariableDecl>
    decreases packets.len(),
{
    if packets.len() == 0 {
        Seq::empty()
    } else {
        packet_field_decls(packets.drop_last(), tree) + prefixed_field_decls(packets.last().packet_id + "."@, packets.last().packet_fields)
            + nested_field_decls(packets.last().packet_id, tree)
    }
}

proof fn lemma_decl_nodes_add(a: Seq<SpecVariableDecl>, b: Seq<SpecVariableDecl>)
    ensures decl_nodes(a + b) == decl_nodes(a) + decl_nodes(b),
{
    assert(decl_nodes(a + b) =~= decl_nodes(a) + decl_nodes(b));
}

fn push_prefixed_decls(out: &mut Vec<DagNode>, prefix: &String, fields: &PacketFields)
    ensures
        vec_view(final(out)@) == vec_view(old(out)@) + decl_nodes(prefixed_field_decls(prefix@, fields@)),
{
    let fs = &fields.field_vector;
    let ghost out0 = vec_view(out@);
    assert(fields@.take(0) =~= Seq::<SpecPacketField>::empty());
    assert(out0 + decl_nodes(prefixed_field_decls(prefix@, fields@.take(0))) =~= out0);
    let mut j: usize = 0;
    while j < fs.len()
        invariant
            j <= fs@.len(),
            fields@ == vec_view(fs@),
            vec_view(out@) == out0 + decl_nodes(prefixed_field_decls(prefix@, fields@.take(j as int))),
        decreases fs@.len() - j,
    {
        let f = &fs[j];
        let mut name = prefix.clone();
        name.append(f.identifier.id_name.as_str());
        let d = VariableDecl { identifier: Identifier { id_name: name }, initial_values: Vec::new(), var_type: copy_var_type(&f.var_type) };
        assert(d@ == field_var_decl(prefix@ + fields@[j as int].identifier, fields@[j as int].var_type)) by {
            assert(d@.initial_values =~= Seq::<u32>::empty());
        }
        let ghost before = out@;
        out.push(decl_node(d));
        proof {
            crate::grammar::lemma_vec_view_push(before, out@.last());
            let pre = prefixed_field_decls(prefix@, fields@.take(j as int));
            assert(prefixed_field_decls(prefix@, fields@.take(j + 1)) =~= pre.push(d@));
            lemma_decl_nodes_push(pre, d@);
            assert(out0 + decl_nodes(pre).push(blank_node(SpecDagNodeType::Decl(d@)))
                =~= (out0 + decl_nodes(pre)).push(blank_node(SpecDagNodeType::Decl(d@))));
        }
        j = j + 1;
    }
    assert(fields@.take(j as int) =~= fields@);
}

fn push_nested_decls(out: &mut Vec<DagNode>, pid: &String, pkt_tree: &Packets)
    ensures
        vec_view(final(out)@) == vec_view(old(out)@) + decl_nodes(nested_field_decls(pid@, pkt_tree@)),
{
    let ts = &pkt_tree.packet_vector;
    let ghost out0 = vec_view(out@);
    assert(pkt_tree@.take(0) =~= Seq::<SpecPacket>::empty());
    assert(out0 + decl_nodes(nested_field_decls(pid@, pkt_tree@.take(0))) =~= out0);
    let mut j: usize = 0;
    while j < ts.len()
        invariant
            j <= ts@.len(),
            pkt_tree@ == vec_view(ts@),
            vec_view(out@) == out0 + decl_nodes(nested_field_decls(pid@, pkt_tree@.take(j as int))),
        decreases ts@.len() - j,
    {
        let t = &ts[j];
        let mut prefix = pid.clone();
        prefix.append(".");
        prefix.append(t.packet_id.id_name.as_str());
        let ghost before = vec_view(out@);
        push_prefixed_decls(out, &prefix, &t.packet_fields);
        proof {
            let tr = pkt_tree@.take(j + 1);
            assert(tr.drop_last() =~= pkt_tree@.take(j as int));
            assert(tr.last() == t@);
            let added = prefixed_field_decls(prefix@, t@.packet_fields);
            lemma_decl_nodes_add(nested_field_decls(pid@, pkt_tree@.take(j as int)), added);
            assert(out0 + decl_nodes(nested_field_decls(pid@, pkt_tree@.take(j as int))) + decl_nodes(added)
                =~= out0 + (decl_nodes(nested_field_decls(pid@, pkt_tree@.take(j as int))) + decl_nodes(added)));
        }
        j = j + 1;
    }
    assert(pkt_tree@.take(j as int) =~= pkt_tree@);
}

/// Declaration nodes for the fields of the program's packets and of the library packets inside
/// them, in the order of `packet_field_decls`.
pub fn packet_decl_nodes(my_packets: &Packets, pkt_tree: &Packets) -> (r: Vec<DagNode>)
    ensures vec_view(r@) == decl_nodes(packet_field_decls(my_packets@, pkt_tree@)),
{
    let ps = &my_packets.packet_vector;
    let mut out: Vec<DagNode> = Vec::new();
    assert(my_packets@.take(0) =~= Seq::<SpecPacket>::empty());
    assert(vec_view(out@) =~= decl_nodes(Seq::empty()));
    let mut i: usize = 0;
    while i < ps.len()
        invariant
            i <= ps@.len(),
            my_packets@ == vec_view(ps@),
            vec_view(out@) == decl_nodes(packet_field_decls(my_packets@.take(i as int), pkt_tree@)),
        decreases ps@.len() - i,
    {
        let p = &ps[i];
        let mut prefix = p.packet_id.id_name.clone();
        prefix.append(".");
        push_prefixed_decls(&mut out, &prefix, &p.packet_fields);
        push_nested_decls(&mut out, &p.packet_id.id_name, pkt_tree);
        proof {
            let pre = my_packets@.take(i as int);
            let cur = my_packets@.take(i + 1);
            assert(cur.drop_last() =~= pre);
            assert(cur.last() == p@);
            let a = packet_field_decls(pre, pkt_tree@);
            let b = prefixed_field_decls(prefix@, p@.packet_fields);
            let c = nested_field_decls(p@.packet_id, pkt_tree@);
            lemma_decl_nodes_add(a, b);
            lemma_decl_nodes_add(a + b, c);
        }
        i = i + 1;
    }
    assert(my_packets@.take(i as int) =~= my_packets@);
    out
}

/// The number of declaration nodes.
pub open spec fn decl_count(ns: Seq<SpecDagNode>) -> nat
    decreases ns.len(),
{
    if ns.len() == 0 {
        0
    } else {
        decl_count(ns.drop_last()) + if ns.last().node_type is Decl { 1nat } else { 0nat }
    }
}

proof fn lemma_decl_count_le(ns: Seq<SpecDagNode>)
    ensures decl_count(ns) <= ns.len(),
    decreases ns.len(),
{
    if ns.len() > 0 {
        lemma_decl_count_le(ns.drop_last());
    }
}

/// Inserts declarations of the packet fields (`packet_field_decls`) into the graph, after as
/// many nodes as the graph has declaration nodes: the declarations come first in a graph.
pub fn insert_packet_decls(my_dag: &mut Dag, my_packets: &Packets, pkt_tree: &Packets)
    ensures
        final(my_dag)@.snippet_id == old(my_dag)@.snippet_id,
        final(my_dag)@.device_type == old(my_dag)@.device_type,
        final(my_dag)@.device_vector == old(my_dag)@.device_vector,
        final(my_dag)@.dag_vector == old(my_dag)@.dag_vector.take(decl_count(old(my_dag)@.dag_vector) as int)
            + decl_nodes(packet_field_decls(my_packets@, pkt_tree@))
            + old(my_dag)@.dag_vector.skip(decl_count(old(my_dag)@.dag_vector) as int),
{
    let ghost ns = my_dag@.dag_vector;
    let mut k: usize = 0;
    let mut i: usize = 0;
    assert(ns.take(0) =~= Seq::<SpecDagNode>::empty());
    while i < my_dag.dag_vector.len()
        invariant
            i <= my_dag.dag_vector@.len(),
            ns == vec_view(my_dag.dag_vector@),
            k as nat == decl_count(ns.take(i as int)),
            k <= i,
        decreases my_dag.dag_vector@.len() - i,
    {
        let is_decl = match &my_dag.dag_vector[i].node_type {
            DagNodeType::Decl(_) => true,
            _ => false,
        };
        proof {
            assert(ns.take(i + 1).drop_last() =~= ns.take(i as int));
            assert(ns.take(i + 1).last() == my_dag.dag_vector@[i as int]@);
        }
        if is_decl {
            k = k + 1;
        }
        i = i + 1;
    }
    assert(ns.take(i as int) =~= ns);
    let mut news = packet_decl_nodes(my_packets, pkt_tree);
    let ghost nv = news@;
    let mut tail = my_dag.dag_vector.split_off(k);
    let ghost head = my_dag.dag_vector@;
    let ghost tv = tail@;
    my_dag.dag_vector.append(&mut news);
    my_dag.dag_vector.append(&mut tail);
    proof {
        lemma_vec_view_add(head, nv);
        lemma_vec_view_add(head + nv, tv);
        assert(vec_view(head) =~= ns.take(k as int));
        assert(vec_view(tv) =~= ns.skip(k as int));
    }
}

// ---------------------------------------------------------------------------------------------
// The packet map, the field types, and the graphs of all snippets
// ---------------------------------------------------------------------------------------------

/// `m` with each field's name, after `key_prefix`, mapped to the same name after `value_prefix`.
pub open spec fn add_names(m: Map<Seq<char>, Seq<char>>, key_prefix: Seq<char>, value_prefix: Seq<char>,
    fields: Seq<SpecPacketField>) -> Map<Seq<char>, Seq<char>>
    decreases fields.len(),
{
    if fields.len() == 0 {
        m
    } else {
        add_names(m, key_prefix, value_prefix, fields.drop_last())
            .insert(key_prefix + fields.last().identifier, value_prefix + fields.last().identifier)
    }
}

/// `m` with the fields of the library packets inside packet `pid`: `pid.tf` stands for field
/// `t.f` of library packet `t`.
pub open spec fn add_nested_names(m: Map<Seq<char>, Seq<char>>, pid: Seq<char>, tree: Seq<SpecPacket>) -> Map<Seq<char>, Seq<char>>
    decreases tree.len(),
{
    if tree.len() == 0 {
        m
    } else {
        add_names(add_nested_names(m, pid, tree.drop_last()), pid + "."@ + tree.last().packet_id,
            tree.last().packet_id + "."@, tree.last().packet_fields)
    }
}

/// The packet map: the name a snippet writes for a packet field, mapped to the field it stands
/// for. For each packet `p` of the program, first the library fields inside it, then its own
/// fields `p.f`, each standing for itself; a later entry for a name replaces an earlier one.
pub open spec fn packet_names(packets: Seq<SpecPacket>, tree: Seq<SpecPacket>) -> Map<Seq<char>, Seq<char>>
    decreases packets.len(),
{
    if packets.len() == 0 {
        Map::empty()
    } else {
        let pid = packets.last().packet_id;
        add_names(add_nested_names(packet_names(packets.drop_last(), tree), pid, tree), pid + "."@, pid + "."@,
            packets.last().packet_fields)
    }
}

/// `m` with the type of each field under `prefix` followed by the field's name.
pub open spec fn add_types(m: Map<Seq<char>, SpecVarType>, prefix: Seq<char>, fields: Seq<SpecPacketField>) -> Map<Seq<char>, SpecVarType>
    decreases fields.len(),
{
    if fields.len() == 0 {
        m
    } else {
        add_types(m, prefix, fields.drop_last()).insert(prefix + fields.last().identifier, fields.last().var_type)
    }
}

pub open spec fn add_packet_types(m: Map<Seq<char>, SpecVarType>, packets: Seq<SpecPacket>) -> Map<Seq<char>, SpecVarType>
    decreases packets.len(),
{
    if packets.len() == 0 {
        m
    } else {
        add_types(add_packet_types(m, packets.drop_last()), packets.last().packet_id + "."@, packets.last().packet_fields)
    }
}

/// The types of the packet fields by their full name `packet.field`: the library packets' and
/// then the program's, a later entry for a name in place of an earlier one.
pub open spec fn field_types(packets: Seq<SpecPacket>, tree: Seq<SpecPacket>) -> Map<Seq<char>, SpecVarType> {
    add_packet_types(add_packet_types(Map::empty(), tree), packets)
}

fn add_names_of(m: &mut NameMap, key_prefix: &String, value_prefix: &String, fields: &PacketFields)
    ensures final(m)@ == add_names(old(m)@, key_prefix@, value_prefix@, fields@),
{
    let fs = &fields.field_vector;
    let ghost m0 = m@;
    assert(fields@.take(0) =~= Seq::<SpecPacketField>::empty());
    let mut j: usize = 0;
    while j < fs.len()
        invariant
            j <= fs@.len(),
            fields@ == vec_view(fs@),
            m@ == add_names(m0, key_prefix@, value_prefix@, fields@.take(j as int)),
        decreases fs@.len() - j,
    {
        let f = &fs[j];
        let mut key = key_prefix.clone();
        key.append(f.identifier.id_name.as_str());
        let mut value = value_prefix.clone();
        value.append(f.identifier.id_name.as_str());
        m.insert(key, value);
        proof {
            assert(fields@.take(j + 1).drop_last() =~= fields@.take(j as int));
            assert(fields@.take(j + 1).last() == f@);
        }
        j = j + 1;
    }
    assert(fields@.take(j as int) =~= fields@);
}

fn add_types_of(m: &mut TypeMap, prefix: &String, fields: &PacketFields)
    ensures final(m)@ == add_types(old(m)@, prefix@, fields@),
{
    let fs = &fields.field_vector;
    let ghost m0 = m@;
    assert(fields@.take(0) =~= Seq::<SpecPacketField>::empty());
    let mut j: usize = 0;
    while j < fs.len()
        invariant
            j <= fs@.len(),
            fields@ == vec_view(fs@),
            m@ == add_types(m0, prefix@, fields@.take(j as int)),
        decreases fs@.len() - j,
    {
        let f = &fs[j];
        let mut key = prefix.clone();
        key.append(f.identifier.id_name.as_str());
        m.insert(key, copy_var_type(&f.var_type));
        proof {
            assert(fields@.take(j + 1).drop_last() =~= fields@.take(j as int));
            assert(fields@.take(j + 1).last() == f@);
        }
        j = j + 1;
    }
    assert(fields@.take(j as int) =~= fields@);
}

fn add_packet_types_of(m: &mut TypeMap, packets: &Packets)
    ensures final(m)@ == add_packet_types(old(m)@, packets@),
{
    let ps = &packets.packet_vector;
    let ghost m0 = m@;
    assert(packets@.take(0) =~= Seq::<SpecPacket>::empty());
    let mut i: usize = 0;
    while i < ps.len()
        invariant
            i <= ps@.len(),
            packets@ == vec_view(ps@),
            m@ == add_packet_types(m0, packets@.take(i as int)),
        decreases ps@.len() - i,
    {
        let p = &ps[i];
        let mut prefix = p.packet_id.id_name.clone();
        prefix.append(".");
        add_types_of(m, &prefix, &p.packet_fields);
        proof {
            assert(packets@.take(i + 1).drop_last() =~= packets@.take(i as int));
            assert(packets@.take(i + 1).last() == p@);
        }
        i = i + 1;
    }
    assert(packets@.take(i as int) =~= packets@);
}

/// The types of the packet fields by their full name (`field_types`).
pub fn create_field_types(my_packets: &Packets, pkt_tree: &Packets) -> (m: TypeMap)
    ensures m@ == field_types(my_packets@, pkt_tree@),
{
    let mut m = TypeMap::new();
    add_packet_types_of(&mut m, pkt_tree);
    add_packet_types_of(&mut m, my_packets);
    m
}

/// The packet map of a program whose packets hold the library packets `pkt_tree`
/// (`packet_names`).
pub fn create_packet_map(my_packets: &Packets, pkt_tree: &Packets) -> (m: NameMap)
    ensures m@ == packet_names(my_packets@, pkt_tree@),
{
    let ps = &my_packets.packet_vector;
    let ts = &pkt_tree.packet_vector;
    let mut m = NameMap::new();
    assert(my_packets@.take(0) =~= Seq::<SpecPacket>::empty());
    let mut i: usize = 0;
    while i < ps.len()
        invariant
            i <= ps@.len(),
            my_packets@ == vec_view(ps@),
            pkt_tree@ == vec_view(ts@),
            m@ == packet_names(my_packets@.take(i as int), pkt_tree@),
        decreases ps@.len() - i,
    {
        let p = &ps[i];
        let ghost pid = p@.packet_id;
        let ghost m_start = m@;
        let mut j: usize = 0;
        assert(pkt_tree@.take(0) =~= Seq::<SpecPacket>::empty());
        while j < ts.len()
            invariant
                j <= ts@.len(),
                pkt_tree@ == vec_view(ts@),
                pid == p@.packet_id,
                m@ == add_nested_names(m_start, pid, pkt_tree@.take(j as int)),
            decreases ts@.len() - j,
        {
            let t = &ts[j];
            let mut key_prefix = p.packet_id.id_name.clone();
            key_prefix.append(".");
            key_prefix.append(t.packet_id.id_name.as_str());
            let mut value_prefix = t.packet_id.id_name.clone();
            value_prefix.append(".");
            add_names_of(&mut m, &key_prefix, &value_prefix, &t.packet_fields);
            proof {
                assert(pkt_tree@.take(j + 1).drop_last() =~= pkt_tree@.take(j as int));
                assert(pkt_tree@.take(j + 1).last() == t@);
            }
            j = j + 1;
        }
        assert(pkt_tree@.take(j as int) =~= pkt_tree@);
        let mut prefix = p.packet_id.id_name.clone();
        prefix.append(".");
        add_names_of(&mut m, &prefix, &prefix, &p.packet_fields);
        proof {
            assert(my_packets@.take(i + 1).drop_last() =~= my_packets@.take(i as int));
            assert(my_packets@.take(i + 1).last() == p@);
        }
        i = i + 1;
    }
    assert(my_packets@.take(i as int) =~= my_packets@);
    m
}

/// The graph of one snippet: declarations of the packet fields, then the snippet after branch
/// removal. A snippet runs on the device that its annotation names.
pub open spec fn snippet_dag(sn: SpecSnippet, packets: Seq<SpecPacket>, tree: Seq<SpecPacket>,
    pmap: Map<Seq<char>, Seq<char>>) -> SpecDag
{
    let r = removal(sn, pmap, field_types(packets, tree));
    SpecDag {
        snippet_id: sn.snippet_id,
        device_type: sn.device_id,
        device_vector: Seq::empty(),
        dag_vector: decl_nodes(packet_field_decls(packets, tree)) + decl_nodes(sn.variable_decls) + decl_nodes(r.decls)
            + stmt_nodes(r.stmts),
    }
}

/// The graphs of the snippets, one for each in order (`snippet_dag`).
pub fn create_dag_nodes(my_snippets: &Snippets, packet_map: &NameMap, my_packets: &Packets, pkt_tree: &Packets) -> (dags: Vec<Dag>)
    requires
        forall|k: int| 0 <= k < my_snippets@.len() ==> removable(#[trigger] my_snippets@[k], packet_map@,
            field_types(my_packets@, pkt_tree@)),
    ensures
        dags@.len() == my_snippets@.len(),
        forall|k: int| 0 <= k < my_snippets@.len() ==> #[trigger] dags@[k]@ == snippet_dag(my_snippets@[k], my_packets@,
            pkt_tree@, packet_map@),
{
    let field_decls = create_field_types(my_packets, pkt_tree);
    let sv = &my_snippets.snippet_vector;
    let mut dags: Vec<Dag> = Vec::new();
    let mut i: usize = 0;
    while i < sv.len()
        invariant
            i <= sv@.len(),
            my_snippets@ == vec_view(sv@),
            field_decls@ == field_types(my_packets@, pkt_tree@),
            forall|k: int| 0 <= k < my_snippets@.len() ==> removable(#[trigger] my_snippets@[k], packet_map@,
                field_types(my_packets@, pkt_tree@)),
            dags@.len() == i,
            forall|k: int| 0 <= k < i ==> #[trigger] dags@[k]@ == snippet_dag(my_snippets@[k], my_packets@, pkt_tree@, packet_map@),
        decreases sv@.len() - i,
    {
        let sn = &sv[i];
        assert(my_snippets@[i as int] == sn@);
        let mut dag = Dag {
            snippet_id: sn.snippet_id.id_name.clone(),
            device_type: sn.device_id.id_name.clone(),
            device_vector: Vec::new(),
            dag_vector: Vec::new(),
        };
        assert(dag@.dag_vector =~= Seq::<SpecDagNode>::empty());
        assert(dag@.device_vector =~= Seq::<Seq<char>>::empty());
        insert_packet_decls(&mut dag, my_packets, pkt_tree);
        let ghost pd = decl_nodes(packet_field_decls(my_packets@, pkt_tree@));
        assert(dag@.dag_vector =~= pd);
        branch_removal(&mut dag, packet_map, sn, &field_decls);
        assert(dag@ == snippet_dag(sn@, my_packets@, pkt_tree@, packet_map@));
        dags.push(dag);
        i = i + 1;
    }
    dags
}

} // verus!
