use vstd::prelude::*;
use crate::grammar::{
    VariableDecl, Expr, Statement, Identifier, VarInfo, TypeQualifier, SpecVariableDecl, SpecExpr,
    SpecStatement, SpecVarInfo, vec_view, BinOpType, Operand, LValue, ExprRight, SpecOperand, SpecLValue,
    SpecExprRight, decimal_string, u32_to_string,
};

verus! {

// ---------------------------------------------------------------------------------------------
// The dataflow graph of a snippet and the P4 text attached to its nodes
// ---------------------------------------------------------------------------------------------

#[derive(Debug, PartialEq)]
pub enum DagNodeType {
    Decl(VariableDecl),
    Cond(Expr),
    Stmt(Statement),
}

pub enum SpecDagNodeType {
    Decl(SpecVariableDecl),
    Cond(SpecExpr),
    Stmt(SpecStatement),
}

impl View for DagNodeType {
    type V = SpecDagNodeType;

    open spec fn view(&self) -> SpecDagNodeType {
        match self {
            DagNodeType::Decl(d) => SpecDagNodeType::Decl(d@),
            DagNodeType::Cond(e) => SpecDagNodeType::Cond(e@),
            DagNodeType::Stmt(s) => SpecDagNodeType::Stmt(s@),
        }
    }
}

/// The parts of a P4 program that a node declares: metadata fields, their initialisation,
/// registers and defines.
#[derive(Debug, PartialEq)]
pub struct P4Header {
    pub meta: String,
    pub meta_init: String,
    pub register: String,
    pub define: String,
}

pub struct SpecP4Header {
    pub meta: Seq<char>,
    pub meta_init: Seq<char>,
    pub register: Seq<char>,
    pub define: Seq<char>,
}

impl View for P4Header {
    type V = SpecP4Header;

    open spec fn view(&self) -> SpecP4Header {
        SpecP4Header {
            meta: self.meta@,
            meta_init: self.meta_init@,
            register: self.register@,
            define: self.define@,
        }
    }
}

impl P4Header {
    /// A header with every part empty.
    pub fn empty() -> (h: P4Header)
        ensures
            h@.meta == Seq::<char>::empty(),
            h@.meta_init == Seq::<char>::empty(),
            h@.register == Seq::<char>::empty(),
            h@.define == Seq::<char>::empty(),
    {
        P4Header { meta: String::new(), meta_init: String::new(), register: String::new(), define: String::new() }
    }
}

/// The P4 text generated for one node.
#[derive(Debug, PartialEq)]
pub struct P4Code {
    pub p4_header: P4Header,
    pub p4_control: String,
    pub p4_actions: String,
    pub p4_commons: String,
}

pub struct SpecP4Code {
    pub p4_header: SpecP4Header,
    pub p4_control: Seq<char>,
    pub p4_actions: Seq<char>,
    pub p4_commons: Seq<char>,
}

impl View for P4Code {
    type V = SpecP4Code;

    open spec fn view(&self) -> SpecP4Code {
        SpecP4Code {
            p4_header: self.p4_header@,
            p4_control: self.p4_control@,
            p4_actions: self.p4_actions@,
            p4_commons: self.p4_commons@,
        }
    }
}

#[derive(Debug, PartialEq)]
pub struct DagNode {
    pub node_type: DagNodeType,
    pub p4_code: P4Code,
    pub next_nodes: Vec<usize>,
    pub prev_nodes: Vec<usize>,
    pub pre_condition: Option<Statement>,
}

pub struct SpecDagNode {
    pub node_type: SpecDagNodeType,
    pub p4_code: SpecP4Code,
    pub next_nodes: Seq<usize>,
    pub prev_nodes: Seq<usize>,
    pub pre_condition: Option<SpecStatement>,
}

impl View for DagNode {
    type V = SpecDagNode;

    open spec fn view(&self) -> SpecDagNode {
        SpecDagNode {
            node_type: self.node_type@,
            p4_code: self.p4_code@,
            next_nodes: self.next_nodes@,
            prev_nodes: self.prev_nodes@,
            pre_condition: match self.pre_condition {
                Some(s) => Some(s@),
                None => None,
            },
        }
    }
}

/// The dataflow graph of one snippet, with the device that it runs on.
#[derive(Debug, PartialEq)]
pub struct Dag {
    pub snippet_id: String,
    pub device_type: String,
    pub device_vector: Vec<Identifier>,
    pub dag_vector: Vec<DagNode>,
}

pub struct SpecDag {
    pub snippet_id: Seq<char>,
    pub device_type: Seq<char>,
    pub device_vector: Seq<Seq<char>>,
    pub dag_vector: Seq<SpecDagNode>,
}

impl View for Dag {
    type V = SpecDag;

    open spec fn view(&self) -> SpecDag {
        SpecDag {
            snippet_id: self.snippet_id@,
            device_type: self.device_type@,
            device_vector: vec_view(self.device_vector@),
            dag_vector: vec_view(self.dag_vector@),
        }
    }
}

/// A declaration as the code generators see it: the name used in the generated text, the
/// shape of the variable and its qualifier.
#[derive(Debug, PartialEq)]
pub struct VarDecl {
    pub id: String,
    pub var_info: VarInfo,
    pub type_qualifier: TypeQualifier,
}

pub struct SpecVarDecl {
    pub id: Seq<char>,
    pub var_info: SpecVarInfo,
    pub type_qualifier: TypeQualifier,
}

impl View for VarDecl {
    type V = SpecVarDecl;

    open spec fn view(&self) -> SpecVarDecl {
        SpecVarDecl { id: self.id@, var_info: self.var_info@, type_qualifier: self.type_qualifier }
    }
}

/// A copy of a declaration.
pub fn copy_var_decl(d: &VarDecl) -> (r: VarDecl)
    ensures r@ == d@,
{
    let var_info = match &d.var_info {
        VarInfo::BitArray(w, n) => VarInfo::BitArray(*w, *n),
        VarInfo::Packet(id) => VarInfo::Packet(Identifier { id_name: id.id_name.clone() }),
    };
    VarDecl { id: d.id.clone(), var_info, type_qualifier: d.type_qualifier }
}

// ---------------------------------------------------------------------------------------------
// Maps from names, where a later entry for a name hides an earlier one
// ---------------------------------------------------------------------------------------------

pub struct DeclEntry {
    pub key: String,
    pub decl: VarDecl,
}

/// Declarations by name.
pub struct DeclMap {
    pub entries: Vec<DeclEntry>,
}

pub open spec fn decl_lookup(entries: Seq<DeclEntry>, k: Seq<char>) -> Option<SpecVarDecl>
    decreases entries.len(),
{
    if entries.len() == 0 {
        None
    } else if entries.last().key@ == k {
        Some(entries.last().decl@)
    } else {
        decl_lookup(entries.drop_last(), k)
    }
}

impl View for DeclMap {
    type V = Map<Seq<char>, SpecVarDecl>;

    open spec fn view(&self) -> Map<Seq<char>, SpecVarDecl> {
        Map::new(|k: Seq<char>| decl_lookup(self.entries@, k) is Some, |k: Seq<char>| decl_lookup(self.entries@, k)->Some_0)
    }
}

impl DeclMap {
    pub fn new() -> (m: DeclMap)
        ensures m@ == Map::<Seq<char>, SpecVarDecl>::empty(),
    {
        let m = DeclMap { entries: Vec::new() };
        assert(m@ =~= Map::<Seq<char>, SpecVarDecl>::empty());
        m
    }

    /// Maps `key` to `decl`, in place of what it mapped to before.
    pub fn insert(&mut self, key: String, decl: VarDecl)
        ensures
            final(self)@ == old(self)@.insert(key@, decl@),
    {
        let ghost old_map = self@;
        let ghost old_entries = self.entries@;
        let ghost k0 = key@;
        let ghost d0 = decl@;
        self.entries.push(DeclEntry { key, decl });
        assert(self.entries@.drop_last() =~= old_entries);
        assert(self@ =~= old_map.insert(k0, d0));
    }

    /// The declaration that `key` maps to.
    pub fn get(&self, key: &String) -> (r: Option<&VarDecl>)
        ensures
            match r {
                Some(d) => self@.contains_key(key@) && self@[key@] == d@,
                None => !self@.contains_key(key@),
            },
    {
        let mut i: usize = self.entries.len();
        assert(self.entries@.subrange(0, i as int) =~= self.entries@);
        while i > 0
            invariant
                i <= self.entries@.len(),
                decl_lookup(self.entries@, key@) == decl_lookup(self.entries@.subrange(0, i as int), key@),
            decreases i,
        {
            let ghost pre = self.entries@.subrange(0, i as int);
            assert(pre.drop_last() =~= self.entries@.subrange(0, i - 1));
            if self.entries[i - 1].key == *key {
                return Some(&self.entries[i - 1].decl);
            }
            i = i - 1;
        }
        None
    }
}

pub struct NameEntry {
    pub key: String,
    pub value: String,
}

/// Names by name: packet fields by the name they are written with in a snippet, or the
/// metadata of a device by the name that a program imports.
pub struct NameMap {
    pub entries: Vec<NameEntry>,
}

pub open spec fn name_lookup(entries: Seq<NameEntry>, k: Seq<char>) -> Option<Seq<char>>
    decreases entries.len(),
{
    if entries.len() == 0 {
        None
    } else if entries.last().key@ == k {
        Some(entries.last().value@)
    } else {
        name_lookup(entries.drop_last(), k)
    }
}

impl View for NameMap {
    type V = Map<Seq<char>, Seq<char>>;

    open spec fn view(&self) -> Map<Seq<char>, Seq<char>> {
        Map::new(|k: Seq<char>| name_lookup(self.entries@, k) is Some, |k: Seq<char>| name_lookup(self.entries@, k)->Some_0)
    }
}

impl NameMap {
    pub fn new() -> (m: NameMap)
        ensures m@ == Map::<Seq<char>, Seq<char>>::empty(),
    {
        let m = NameMap { entries: Vec::new() };
        assert(m@ =~= Map::<Seq<char>, Seq<char>>::empty());
        m
    }

    /// Maps `key` to `value`, in place of what it mapped to before.
    pub fn insert(&mut self, key: String, value: String)
        ensures
            final(self)@ == old(self)@.insert(key@, value@),
    {
        let ghost old_map = self@;
        let ghost old_entries = self.entries@;
        let ghost k0 = key@;
        let ghost v0 = value@;
        self.entries.push(NameEntry { key, value });
        assert(self.entries@.drop_last() =~= old_entries);
        assert(self@ =~= old_map.insert(k0, v0));
    }

    /// The name that `key` maps to.
    pub fn get(&self, key: &String) -> (r: Option<&String>)
        ensures
            match r {
                Some(v) => self@.contains_key(key@) && self@[key@] == v@,
                None => !self@.contains_key(key@),
            },
    {
        let mut i: usize = self.entries.len();
        assert(self.entries@.subrange(0, i as int) =~= self.entries@);
        while i > 0
            invariant
                i <= self.entries@.len(),
                name_lookup(self.entries@, key@) == name_lookup(self.entries@.subrange(0, i as int), key@),
            decreases i,
        {
            let ghost pre = self.entries@.subrange(0, i as int);
            assert(pre.drop_last() =~= self.entries@.subrange(0, i - 1));
            if self.entries[i - 1].key == *key {
                return Some(&self.entries[i - 1].value);
            }
            i = i - 1;
        }
        None
    }
}

// ---------------------------------------------------------------------------------------------
// Positions of the nodes that last wrote each name
// ---------------------------------------------------------------------------------------------

pub struct IndexEntry {
    pub key: String,
    pub index: usize,
}

/// Node positions by name, where a later entry for a name hides an earlier one.
pub struct IndexMap {
    pub entries: Vec<IndexEntry>,
}

pub open spec fn index_lookup(entries: Seq<IndexEntry>, k: Seq<char>) -> Option<usize>
    decreases entries.len(),
{
    if entries.len() == 0 {
        None
    } else if entries.last().key@ == k {
        Some(entries.last().index)
    } else {
        index_lookup(entries.drop_last(), k)
    }
}

impl View for IndexMap {
    type V = Map<Seq<char>, usize>;

    open spec fn view(&self) -> Map<Seq<char>, usize> {
        Map::new(|k: Seq<char>| index_lookup(self.entries@, k) is Some, |k: Seq<char>| index_lookup(self.entries@, k)->Some_0)
    }
}

impl IndexMap {
    pub fn new() -> (m: IndexMap)
        ensures m@ == Map::<Seq<char>, usize>::empty(),
    {
        let m = IndexMap { entries: Vec::new() };
        assert(m@ =~= Map::<Seq<char>, usize>::empty());
        m
    }

    /// Maps `key` to `index`, in place of what it mapped to before.
    pub fn insert(&mut self, key: String, index: usize)
        ensures final(self)@ == old(self)@.insert(key@, index),
    {
        let ghost old_map = self@;
        let ghost old_entries = self.entries@;
        let ghost k0 = key@;
        self.entries.push(IndexEntry { key, index });
        assert(self.entries@.drop_last() =~= old_entries);
        assert(self@ =~= old_map.insert(k0, index));
    }

    /// The position that `key` maps to.
    pub fn get(&self, key: &String) -> (r: Option<usize>)
        ensures
            match r {
                Some(v) => self@.contains_key(key@) && self@[key@] == v,
                None => !self@.contains_key(key@),
            },
    {
        let mut i: usize = self.entries.len();
        assert(self.entries@.subrange(0, i as int) =~= self.entries@);
        while i > 0
            invariant
                i <= self.entries@.len(),
                index_lookup(self.entries@, key@) == index_lookup(self.entries@.subrange(0, i as int), key@),
            decreases i,
        {
            let ghost pre = self.entries@.subrange(0, i as int);
            assert(pre.drop_last() =~= self.entries@.subrange(0, i - 1));
            if self.entries[i - 1].key == *key {
                return Some(self.entries[i - 1].index);
            }
            i = i - 1;
        }
        None
    }
}

/// The name under which a written variable, array or packet field is recorded.
pub open spec fn written_name(lv: SpecLValue) -> Seq<char> {
    match lv {
        SpecLValue::Scalar(id) => id,
        SpecLValue::Array(id, _) => id,
        SpecLValue::Field(p, f) => p + "."@ + f,
    }
}

pub(crate) fn written_name_string(lv: &LValue) -> (s: String)
    ensures s@ == written_name(lv@),
{
    let mut s = String::new();
    match lv {
        LValue::Scalar(id) => s.append(id.id_name.as_str()),
        LValue::Array(id, _) => s.append(id.id_name.as_str()),
        LValue::Field(p, f) => {
            s.append(p.id_name.as_str());
            s.append(".");
            s.append(f.id_name.as_str());
        },
    }
    s
}

/// The node that last wrote the variable that `lval` writes.
pub fn get_write_var(decl_map: &IndexMap, lval: &LValue) -> (r: usize)
    requires
        decl_map@.contains_key(written_name(lval@)),
    ensures
        r == decl_map@[written_name(lval@)],
{
    let k = written_name_string(lval);
    decl_map.get(&k).unwrap()
}

/// Whether the index of an array can be looked up: a value, or a scalar or packet field with a
/// writer.
pub open spec fn index_operand_ok(decl_map: Map<Seq<char>, usize>, o: SpecOperand) -> bool {
    match o {
        SpecOperand::LValue(SpecLValue::Array(_, _)) => false,
        SpecOperand::LValue(lv) => decl_map.contains_key(written_name(lv)),
        SpecOperand::Value(_) => true,
    }
}

/// The node that last wrote the index of an array; `usize::MAX` for a constant index.
pub open spec fn index_operand_node(decl_map: Map<Seq<char>, usize>, o: SpecOperand) -> usize {
    match o {
        SpecOperand::LValue(lv) => decl_map[written_name(lv)],
        SpecOperand::Value(_) => usize::MAX,
    }
}

pub fn get_array_ind_val(decl_map: &IndexMap, operand: &Operand) -> (r: usize)
    requires
        index_operand_ok(decl_map@, operand@),
    ensures
        r == index_operand_node(decl_map@, operand@),
{
    match operand {
        Operand::LValue(lv) => {
            let k = written_name_string(lv);
            decl_map.get(&k).unwrap()
        },
        Operand::Value(_) => usize::MAX,
    }
}

/// Whether the nodes an operand reads can be looked up: arrays and scalars must have a writer,
/// and so must an array's index.
pub open spec fn operand_reads_ok(decl_map: Map<Seq<char>, usize>, o: SpecOperand) -> bool {
    match o {
        SpecOperand::LValue(SpecLValue::Field(_, _)) => true,
        SpecOperand::LValue(SpecLValue::Array(name, ind)) => decl_map.contains_key(name) && index_operand_ok(decl_map, *ind),
        SpecOperand::LValue(SpecLValue::Scalar(id)) => decl_map.contains_key(id),
        SpecOperand::Value(_) => true,
    }
}

/// The nodes an operand reads: the writer of a packet field (where it has one), of an array
/// and of its index (unless constant), or of a scalar.
pub open spec fn operand_reads(decl_map: Map<Seq<char>, usize>, o: SpecOperand) -> Seq<usize> {
    match o {
        SpecOperand::LValue(SpecLValue::Field(p, f)) =>
            if decl_map.contains_key(p + "."@ + f) { seq![decl_map[p + "."@ + f]] } else { Seq::empty() },
        SpecOperand::LValue(SpecLValue::Array(name, ind)) => {
            let v = index_operand_node(decl_map, *ind);
            seq![decl_map[name]] + (if v != usize::MAX { seq![v] } else { Seq::empty() })
        },
        SpecOperand::LValue(SpecLValue::Scalar(id)) => seq![decl_map[id]],
        SpecOperand::Value(_) => Seq::empty(),
    }
}

pub fn get_operand_val(decl_map: &IndexMap, operand: &Operand) -> (r: Vec<usize>)
    requires
        operand_reads_ok(decl_map@, operand@),
    ensures
        r@ == operand_reads(decl_map@, operand@),
{
    let mut read_vec: Vec<usize> = Vec::new();
    match operand {
        Operand::LValue(LValue::Field(p, f)) => {
            let mut k = String::new();
            k.append(p.id_name.as_str());
            k.append(".");
            k.append(f.id_name.as_str());
            match decl_map.get(&k) {
                Some(index) => read_vec.push(index),
                None => {},
            }
        },
        Operand::LValue(LValue::Array(name, ind)) => {
            read_vec.push(decl_map.get(&name.id_name).unwrap());
            let val = get_array_ind_val(decl_map, ind);
            if val != usize::MAX {
                read_vec.push(val);
            }
        },
        Operand::LValue(LValue::Scalar(id)) => {
            read_vec.push(decl_map.get(&id.id_name).unwrap());
        },
        Operand::Value(_) => {},
    }
    assert(read_vec@ =~= operand_reads(decl_map@, operand@));
    read_vec
}

/// Whether the nodes a statement reads can be looked up.
pub open spec fn statement_reads_ok(decl_map: Map<Seq<char>, usize>, s: SpecStatement) -> bool {
    &&& (match s.lvalue {
        SpecLValue::Array(_, ind) => index_operand_ok(decl_map, *ind),
        _ => true,
    })
    &&& operand_reads_ok(decl_map, s.expr.op1)
    &&& (match s.expr.expr_right {
        SpecExprRight::BinOp(_, o) => operand_reads_ok(decl_map, o),
        SpecExprRight::Cond(o1, o2) => operand_reads_ok(decl_map, o1) && operand_reads_ok(decl_map, o2),
        SpecExprRight::Empty => true,
    })
}

/// The nodes a statement reads: the writer of the index it writes at, then those of its
/// operands, in order.
pub open spec fn statement_reads(decl_map: Map<Seq<char>, usize>, s: SpecStatement) -> Seq<usize> {
    (match s.lvalue {
        SpecLValue::Array(_, ind) => {
            let v = index_operand_node(decl_map, *ind);
            if v != usize::MAX { seq![v] } else { Seq::empty() }
        },
        _ => Seq::empty(),
    }) + operand_reads(decl_map, s.expr.op1) + (match s.expr.expr_right {
        SpecExprRight::BinOp(_, o) => operand_reads(decl_map, o),
        SpecExprRight::Cond(o1, o2) => operand_reads(decl_map, o1) + operand_reads(decl_map, o2),
        SpecExprRight::Empty => Seq::empty(),
    })
}

fn index_operand_known(decl_map: &IndexMap, o: &Operand) -> (b: bool)
    ensures b == index_operand_ok(decl_map@, o@),
{
    match o {
        Operand::LValue(LValue::Array(_, _)) => false,
        Operand::LValue(lv) => decl_map.get(&written_name_string(lv)).is_some(),
        Operand::Value(_) => true,
    }
}

fn operand_reads_known(decl_map: &IndexMap, o: &Operand) -> (b: bool)
    ensures b == operand_reads_ok(decl_map@, o@),
{
    match o {
        Operand::LValue(LValue::Field(_, _)) => true,
        Operand::LValue(LValue::Array(name, ind)) => decl_map.get(&name.id_name).is_some() && index_operand_known(decl_map, ind),
        Operand::LValue(LValue::Scalar(id)) => decl_map.get(&id.id_name).is_some(),
        Operand::Value(_) => true,
    }
}

/// Whether the nodes that a statement reads can be looked up (`statement_reads_ok`).
pub fn statement_reads_known(decl_map: &IndexMap, my_statement: &Statement) -> (b: bool)
    ensures b == statement_reads_ok(decl_map@, my_statement@),
{
    let lv_ok = match &my_statement.lvalue {
        LValue::Array(_, ind) => index_operand_known(decl_map, ind),
        _ => true,
    };
    let right_ok = match &my_statement.expr.expr_right {
        ExprRight::BinOp(_, o) => operand_reads_known(decl_map, o),
        ExprRight::Cond(o1, o2) => operand_reads_known(decl_map, o1) && operand_reads_known(decl_map, o2),
        ExprRight::Empty() => true,
    };
    lv_ok && operand_reads_known(decl_map, &my_statement.expr.op1) && right_ok
}

pub fn get_read_vars(decl_map: &IndexMap, my_statement: &Statement) -> (r: Vec<usize>)
    requires
        statement_reads_ok(decl_map@, my_statement@),
    ensures
        r@ == statement_reads(decl_map@, my_statement@),
{
    let mut read_vec: Vec<usize> = Vec::new();
    match &my_statement.lvalue {
        LValue::Array(_, ind) => {
            let index = get_array_ind_val(decl_map, ind);
            if index != usize::MAX {
                read_vec.push(index);
            }
        },
        _ => {},
    }
    let mut v1 = get_operand_val(decl_map, &my_statement.expr.op1);
    read_vec.append(&mut v1);
    match &my_statement.expr.expr_right {
        ExprRight::BinOp(_, operand) => {
            let mut v2 = get_operand_val(decl_map, operand);
            read_vec.append(&mut v2);
        },
        ExprRight::Cond(operand1, operand2) => {
            let mut v2 = get_operand_val(decl_map, operand1);
            read_vec.append(&mut v2);
            let mut v3 = get_operand_val(decl_map, operand2);
            read_vec.append(&mut v3);
        },
        ExprRight::Empty() => {},
    }
    assert(read_vec@ =~= statement_reads(decl_map@, my_statement@));
    read_vec
}

/// The node at a position of the graph, if there is one.
pub fn get_dag_node<'a>(my_dag: &'a Dag, index: &usize) -> (r: Option<&'a DagNode>)
    ensures
        match r {
            Some(n) => *index < my_dag.dag_vector@.len() && n@ == my_dag@.dag_vector[*index as int],
            None => *index >= my_dag.dag_vector@.len(),
        },
{
    if *index < my_dag.dag_vector.len() {
        Some(&my_dag.dag_vector[*index])
    } else {
        None
    }
}

/// What a map gives for `k`, if anything.
pub open spec fn lookup<V>(m: Map<Seq<char>, V>, k: Seq<char>) -> Option<V> {
    if m.contains_key(k) {
        Some(m[k])
    } else {
        None
    }
}

/// The node recorded for the text of an lvalue (`x`, `x [ i ] ` or `x . f`), if any: the node
/// that sets a condition variable.
pub fn get_pre_condition(decl_map: &IndexMap, lval: &LValue) -> (r: Option<usize>)
    ensures
        r == lookup(decl_map@, crate::grammar::lvalue_text(lval@)),
{
    let my_id = lval.get_string();
    decl_map.get(&my_id)
}

/// The node recorded for an operand that names a variable; none for a value.
pub fn get_pre_condition_op(decl_map: &IndexMap, op: &Operand) -> (r: Option<usize>)
    ensures
        r == match op@ {
            SpecOperand::LValue(l) => lookup(decl_map@, crate::grammar::lvalue_text(l)),
            SpecOperand::Value(_) => None,
        },
{
    match op {
        Operand::LValue(lval) => get_pre_condition(decl_map, lval),
        Operand::Value(_) => None,
    }
}

pub open spec fn opt_node_view(n: Option<&DagNode>) -> Option<SpecDagNode> {
    match n {
        Some(node) => Some(node@),
        None => None,
    }
}

pub open spec fn is_scalar_operand(o: SpecOperand) -> bool {
    o matches SpecOperand::LValue(SpecLValue::Scalar(_))
}

/// A condition node can be copied: it is a statement `x = a op b` where `x` and `a` are scalars
/// and `b` is a scalar or a value.
pub open spec fn clone_condition_ok(n: Option<SpecDagNode>) -> bool {
    match n {
        None => true,
        Some(node) => match node.node_type {
            SpecDagNodeType::Stmt(s) => {
                &&& s.lvalue is Scalar
                &&& is_scalar_operand(s.expr.op1)
                &&& match s.expr.expr_right {
                    SpecExprRight::BinOp(_, o) => o is Value || is_scalar_operand(o),
                    _ => false,
                }
            },
            _ => false,
        },
    }
}

/// The copy of a condition statement: none where there is no node or the comparison is with a
/// value.
pub open spec fn clone_condition(n: Option<SpecDagNode>) -> Option<SpecStatement> {
    match n {
        Some(node) => match node.node_type {
            SpecDagNodeType::Stmt(s) => match s.expr.expr_right {
                SpecExprRight::BinOp(_, SpecOperand::LValue(_)) => Some(s),
                _ => None,
            },
            _ => None,
        },
        None => None,
    }
}

fn scalar_copy(id: &Identifier) -> (l: LValue)
    ensures l@ == SpecLValue::Scalar(id.id_name@),
{
    LValue::Scalar(Identifier { id_name: id.id_name.clone() })
}

/// A copy of the comparison that a condition node holds.
pub fn check_clone_condition(my_pre_condition_dag_option: Option<&DagNode>) -> (r: Option<Statement>)
    requires
        clone_condition_ok(opt_node_view(my_pre_condition_dag_option)),
    ensures
        match r {
            Some(s) => clone_condition(opt_node_view(my_pre_condition_dag_option)) == Some(s@),
            None => clone_condition(opt_node_view(my_pre_condition_dag_option)) is None,
        },
{
    match my_pre_condition_dag_option {
        Some(node) => match &node.node_type {
            DagNodeType::Stmt(st) => match (&st.lvalue, &st.expr.op1, &st.expr.expr_right) {
                (LValue::Scalar(x), Operand::LValue(LValue::Scalar(a)), ExprRight::BinOp(op, Operand::LValue(LValue::Scalar(b)))) => {
                    let lvalue = scalar_copy(x);
                    let op1 = Operand::LValue(scalar_copy(a));
                    let right = ExprRight::BinOp(*op, Operand::LValue(scalar_copy(b)));
                    Some(Statement { lvalue, expr: Expr { op1, expr_right: right } })
                },
                _ => None,
            },
            _ => None,
        },
        None => None,
    }
}

// ---------------------------------------------------------------------------------------------
// Operators and operands as text
// ---------------------------------------------------------------------------------------------

/// The spelling of an operation between spaces.
pub open spec fn binop_text(op: BinOpType) -> Seq<char> {
    match op {
        BinOpType::BooleanAnd => " & "@,
        BinOpType::BooleanOr => " | "@,
        BinOpType::Plus => " + "@,
        BinOpType::Minus => " - "@,
        BinOpType::Mul => " * "@,
        BinOpType::Div => " / "@,
        BinOpType::Modulo => " % "@,
        BinOpType::Equal => " == "@,
        BinOpType::NotEqual => " != "@,
        BinOpType::GreaterThan => " > "@,
        BinOpType::LessThan => " < "@,
        BinOpType::GTEQOp => " >= "@,
        BinOpType::LTEQOp => " <= "@,
    }
}

pub fn handle_binop(bin_op_type: BinOpType) -> (s: String)
    ensures s@ == binop_text(bin_op_type),
{
    let mut contents = String::new();
    let t = match bin_op_type {
        BinOpType::BooleanAnd => " & ",
        BinOpType::BooleanOr => " | ",
        BinOpType::Plus => " + ",
        BinOpType::Minus => " - ",
        BinOpType::Mul => " * ",
        BinOpType::Div => " / ",
        BinOpType::Modulo => " % ",
        BinOpType::Equal => " == ",
        BinOpType::NotEqual => " != ",
        BinOpType::GreaterThan => " > ",
        BinOpType::LessThan => " < ",
        BinOpType::GTEQOp => " >= ",
        BinOpType::LTEQOp => " <= ",
    };
    contents.append(t);
    contents
}

/// The text that `{:?}` gives for a string.
pub uninterp spec fn debug_text(s: Seq<char>) -> Seq<char>;

/// Characters that the debug form of a string leaves as they are.
pub open spec fn plain_char(c: char) -> bool {
    ('a' <= c && c <= 'z') || ('A' <= c && c <= 'Z') || ('0' <= c && c <= '9') || c == '_'
}

/// The debug form of a string, as `format!("{:?}", s)` writes it: the string in double
/// quotes with special characters escaped. Only the quoting of strings made of letters,
/// digits and underscores is stated; the escapes of other characters are left unsaid.
#[verifier::external_body]
pub(crate) fn debug_string(s: &str) -> (r: String)
    ensures
        r@ == debug_text(s@),
        (forall|i: int| 0 <= i < s@.len() ==> plain_char(#[trigger] s@[i])) ==> r@ == "\""@ + s@ + "\""@,
{
    format!("{:?}", s)
}

/// The text of an array index.
pub open spec fn array_op_text(o: SpecOperand) -> Seq<char> {
    match o {
        SpecOperand::LValue(SpecLValue::Scalar(id)) => debug_text(id),
        SpecOperand::LValue(SpecLValue::Field(p, f)) => debug_text(p) + "."@ + debug_text(f),
        SpecOperand::LValue(SpecLValue::Array(_, _)) => Seq::empty(),
        SpecOperand::Value(v) => decimal_string(v as nat),
    }
}

pub fn handle_array_op(operand: &Operand) -> (s: String)
    ensures s@ == array_op_text(operand@),
{
    let mut contents = String::new();
    match operand {
        Operand::LValue(LValue::Scalar(id)) => {
            let d = debug_string(id.id_name.as_str());
            contents.append(d.as_str());
        },
        Operand::LValue(LValue::Field(p, f)) => {
            let d = debug_string(p.id_name.as_str());
            contents.append(d.as_str());
            contents.append(".");
            let d = debug_string(f.id_name.as_str());
            contents.append(d.as_str());
        },
        Operand::LValue(LValue::Array(_, _)) => {},
        Operand::Value(v) => {
            let d = u32_to_string(v.value);
            contents.append(d.as_str());
        },
    }
    contents
}

/// The text of an operand.
pub open spec fn operand_debug_text(o: SpecOperand) -> Seq<char> {
    match o {
        SpecOperand::LValue(SpecLValue::Scalar(id)) => debug_text(id),
        SpecOperand::LValue(SpecLValue::Array(id, ind)) => debug_text(id) + "["@ + debug_text(array_op_text(*ind)) + "]"@,
        SpecOperand::LValue(SpecLValue::Field(p, f)) => debug_text(p) + "."@ + debug_text(f),
        SpecOperand::Value(v) => decimal_string(v as nat),
    }
}

pub fn handle_operand(operand: &Operand) -> (s: String)
    ensures s@ == operand_debug_text(operand@),
{
    let mut contents = String::new();
    match operand {
        Operand::LValue(LValue::Scalar(id)) => {
            let d = debug_string(id.id_name.as_str());
            contents.append(d.as_str());
        },
        Operand::LValue(LValue::Array(id1, id2)) => {
            let d = debug_string(id1.id_name.as_str());
            contents.append(d.as_str());
            contents.append("[");
            let inner = handle_array_op(id2);
            let d = debug_string(inner.as_str());
            contents.append(d.as_str());
            contents.append("]");
        },
        Operand::LValue(LValue::Field(p, f)) => {
            let d = debug_string(p.id_name.as_str());
            contents.append(d.as_str());
            contents.append(".");
            let d = debug_string(f.id_name.as_str());
            contents.append(d.as_str());
        },
        Operand::Value(v) => {
            let d = u32_to_string(v.value);
            contents.append(d.as_str());
        },
    }
    contents
}

} // verus!
