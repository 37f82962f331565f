use vstd::prelude::*;
use crate::grammar::{
    Packets, Packet, SpecPacket, SpecPacketField, VariableDecl, VarInfo, TypeQualifier, BinOpType,
    Operand, LValue, Statement, ExprRight, SpecVariableDecl, SpecVarInfo, SpecOperand, SpecLValue,
    SpecStatement, SpecExprRight, decimal_string, u64_to_string,
};
use crate::trans_snippet::{
    Dag, DagNode, SpecDagNode, P4Code, SpecP4Code, P4Header, SpecP4Header, VarDecl, SpecVarDecl,
    DeclMap, NameMap, DagNodeType, SpecDagNodeType,
};

verus! {

// ---------------------------------------------------------------------------------------------
// Generator state and text pieces
// ---------------------------------------------------------------------------------------------

/// The counters that number the actions, tables and temporaries of the generated program, and
/// whether an assignment opens an action and a table of its own (it does not inside the two
/// actions of a conditional assignment).
#[derive(Debug, PartialEq, Eq, Structural, Clone, Copy)]
pub struct GenState {
    pub action_count: u64,
    pub table_count: u64,
    pub temp_count: u64,
    pub eq_table_count: u64,
    pub neq_table_count: u64,
    pub new_action: bool,
}

impl GenState {
    /// Every counter at one, and assignments in actions of their own.
    pub fn new() -> (s: GenState)
        ensures
            s == (GenState {
                action_count: 1,
                table_count: 1,
                temp_count: 1,
                eq_table_count: 1,
                neq_table_count: 1,
                new_action: true,
            }),
    {
        GenState {
            action_count: 1,
            table_count: 1,
            temp_count: 1,
            eq_table_count: 1,
            neq_table_count: 1,
            new_action: true,
        }
    }
}

/// Generated text, by the part of the P4 program that it goes to: the control flow, the
/// actions, the tables, and metadata declarations.
#[verifier::ext_equal]
pub struct Frag {
    pub control: Seq<char>,
    pub actions: Seq<char>,
    pub commons: Seq<char>,
    pub metadecl: Seq<char>,
}

pub open spec fn frag_empty() -> Frag {
    Frag {
        control: Seq::empty(),
        actions: Seq::empty(),
        commons: Seq::empty(),
        metadecl: Seq::empty(),
    }
}

/// `a` followed by `b`, part by part.
pub open spec fn frag_cat(a: Frag, b: Frag) -> Frag {
    Frag {
        control: a.control + b.control,
        actions: a.actions + b.actions,
        commons: a.commons + b.commons,
        metadecl: a.metadecl + b.metadecl,
    }
}

pub open spec fn frag_actions(actions: Seq<char>) -> Frag {
    Frag { control: Seq::empty(), actions, commons: Seq::empty(), metadecl: Seq::empty() }
}

pub open spec fn frag3(r: (String, String, String)) -> Frag {
    Frag { control: r.0@, actions: r.1@, commons: r.2@, metadecl: Seq::empty() }
}

pub open spec fn frag4(r: (String, String, String, String)) -> Frag {
    Frag { control: r.0@, actions: r.1@, commons: r.2@, metadecl: r.3@ }
}

pub open spec fn tab() -> Seq<char> {
    "    "@
}

pub open spec fn mdata() -> Seq<char> {
    "mdata"@
}

pub open spec fn dec(n: u64) -> Seq<char> {
    decimal_string(n as nat)
}

/// What a map gives for `k`, if anything.
pub open spec fn map_get<K, V>(m: Map<K, V>, k: K) -> Option<V> {
    if m.contains_key(k) {
        Some(m[k])
    } else {
        None
    }
}

/// A field of the metadata header.
pub open spec fn meta_ref(id: Seq<char>) -> Seq<char> {
    mdata() + "."@ + id
}

/// A name, read from the metadata header where `in_meta` holds.
pub open spec fn operand_ref(in_meta: bool, id: Seq<char>) -> Seq<char> {
    if in_meta {
        meta_ref(id)
    } else {
        id
    }
}

/// A name behind a header name, where there is one.
pub open spec fn prefixed(prefix: Seq<char>, id: Seq<char>) -> Seq<char> {
    if prefix.len() == 0 {
        id
    } else {
        prefix + "."@ + id
    }
}

pub open spec fn meta_prefix(in_meta: bool) -> Seq<char> {
    if in_meta {
        mdata()
    } else {
        Seq::empty()
    }
}

// ---------------------------------------------------------------------------------------------
// Building text
// ---------------------------------------------------------------------------------------------

struct Out {
    control: String,
    actions: String,
    commons: String,
    metadecl: String,
}

impl View for Out {
    type V = Frag;

    closed spec fn view(&self) -> Frag {
        Frag {
            control: self.control@,
            actions: self.actions@,
            commons: self.commons@,
            metadecl: self.metadecl@,
        }
    }
}

impl Out {
    fn new() -> (o: Out)
        ensures o@ == frag_empty(),
    {
        Out { control: String::new(), actions: String::new(), commons: String::new(), metadecl: String::new() }
    }

    fn add3(&mut self, r: (String, String, String))
        ensures final(self)@ == frag_cat(old(self)@, frag3(r)),
    {
        self.control.append(r.0.as_str());
        self.actions.append(r.1.as_str());
        self.commons.append(r.2.as_str());
    }

    fn add4(&mut self, r: (String, String, String, String))
        ensures final(self)@ == frag_cat(old(self)@, frag4(r)),
    {
        self.control.append(r.0.as_str());
        self.actions.append(r.1.as_str());
        self.commons.append(r.2.as_str());
        self.metadecl.append(r.3.as_str());
    }

    fn finish4(self) -> (r: (String, String, String, String))
        ensures frag4(r) == self@,
    {
        (self.control, self.actions, self.commons, self.metadecl)
    }
}

pub(crate) fn push_dec(s: &mut String, n: u64)
    ensures final(s)@ == old(s)@ + dec(n),
{
    let d = u64_to_string(n);
    s.append(d.as_str());
}

fn push_meta_ref(s: &mut String, id: &String)
    ensures final(s)@ == old(s)@ + meta_ref(id@),
{
    s.append("mdata");
    s.append(".");
    s.append(id.as_str());
}

fn push_operand_ref(s: &mut String, in_meta: bool, id: &String)
    ensures final(s)@ == old(s)@ + operand_ref(in_meta, id@),
{
    if in_meta {
        push_meta_ref(s, id);
    } else {
        s.append(id.as_str());
    }
}

fn push_prefixed(s: &mut String, prefix: &str, id: &String)
    ensures final(s)@ == old(s)@ + prefixed(prefix@, id@),
{
    if prefix.is_empty() {
        s.append(id.as_str());
    } else {
        s.append(prefix);
        s.append(".");
        s.append(id.as_str());
    }
}

proof fn lemma_meta_prefix(in_meta: bool, id: Seq<char>)
    ensures
        prefixed(meta_prefix(in_meta), id) == operand_ref(in_meta, id),
        meta_prefix(in_meta) == (if in_meta { "mdata"@ } else { ""@ }),
{
    reveal_strlit("mdata");
    reveal_strlit("");
    assert(""@ =~= Seq::<char>::empty());
}

// ---------------------------------------------------------------------------------------------
// Opening an action and its table
// ---------------------------------------------------------------------------------------------

/// The text of a new action with a table that applies it, numbered by the counters of `st`.
pub open spec fn new_action_frag(st: GenState) -> Frag {
    Frag {
        control: tab() + "apply(table"@ + dec(st.table_count) + ");\n"@,
        actions: "action action"@ + dec(st.action_count) + " () {\n"@,
        commons: "table table"@ + dec(st.table_count) + " {\n"@ + tab() + "actions {\n"@ + tab() + tab()
            + "action"@ + dec(st.action_count) + ";\n"@ + tab() + "}\n"@ + "}\n"@,
        metadecl: Seq::empty(),
    }
}

pub open spec fn after_new_action(st: GenState) -> GenState {
    GenState {
        action_count: st.action_count.wrapping_add(1),
        table_count: st.table_count.wrapping_add(1),
        temp_count: st.temp_count,
        eq_table_count: st.eq_table_count,
        neq_table_count: st.neq_table_count,
        new_action: st.new_action,
    }
}

/// Opens a new action, applied by a table of its own; the action's body is left open.
#[allow(non_snake_case)]
pub fn get_NEW_ACTION(st: &mut GenState) -> (r: (String, String, String))
    ensures
        frag3(r) == new_action_frag(*old(st)),
        *final(st) == after_new_action(*old(st)),
{
    let mut control = String::new();
    let mut actions = String::new();
    let mut commons = String::new();
    control.append("    ");
    control.append("apply(table");
    push_dec(&mut control, st.table_count);
    control.append(");\n");
    actions.append("action action");
    push_dec(&mut actions, st.action_count);
    actions.append(" () {\n");
    commons.append("table table");
    push_dec(&mut commons, st.table_count);
    commons.append(" {\n");
    commons.append("    ");
    commons.append("actions {\n");
    commons.append("    ");
    commons.append("    ");
    commons.append("action");
    push_dec(&mut commons, st.action_count);
    commons.append(";\n");
    commons.append("    ");
    commons.append("}\n");
    commons.append("}\n");
    st.action_count = st.action_count.wrapping_add(1);
    st.table_count = st.table_count.wrapping_add(1);
    (control, actions, commons)
}

/// `body` as the text of an action: in an action of its own where `st` says so.
pub open spec fn in_action(st: GenState, body: Seq<char>) -> (Frag, GenState) {
    if st.new_action {
        let f = new_action_frag(st);
        (Frag { control: f.control, actions: f.actions + body + "}\n"@, commons: f.commons, metadecl: Seq::empty() },
         after_new_action(st))
    } else {
        (frag_actions(body), st)
    }
}

fn emit_in_action(out: &mut Out, st: &mut GenState, body: &String)
    ensures
        final(out)@ == frag_cat(old(out)@, in_action(*old(st), body@).0),
        *final(st) == in_action(*old(st), body@).1,
{
    if st.new_action {
        let (a, b, c) = get_NEW_ACTION(st);
        out.control.append(a.as_str());
        out.actions.append(b.as_str());
        out.actions.append(body.as_str());
        out.actions.append("}\n");
        out.commons.append(c.as_str());
    } else {
        out.actions.append(body.as_str());
    }
}

// ---------------------------------------------------------------------------------------------
// Reading registers
// ---------------------------------------------------------------------------------------------

pub open spec fn register_read_text(d: SpecVarDecl, index: u64) -> Seq<char> {
    tab() + "register_read("@ + meta_ref(d.id) + ", "@ + d.id + ", "@ + dec(index) + ");\n"@
}

/// Reading a register into its metadata field, in an action of its own.
pub open spec fn read_register_spec(d: SpecVarDecl, index: u64, st: GenState) -> (Frag, GenState) {
    let f = new_action_frag(st);
    (Frag {
        control: f.control,
        actions: f.actions + register_read_text(d, index) + "}\n"@,
        commons: f.commons,
        metadecl: Seq::empty(),
    }, after_new_action(st))
}

fn register_read_line(d: &VarDecl, index: u64) -> (s: String)
    ensures s@ == register_read_text(d@, index),
{
    let mut s = String::new();
    s.append("    ");
    s.append("register_read(");
    push_meta_ref(&mut s, &d.id);
    s.append(", ");
    s.append(d.id.as_str());
    s.append(", ");
    push_dec(&mut s, index);
    s.append(");\n");
    s
}

/// Reads a register into its metadata field, in an action and table of their own.
pub fn handle_read_register(my_decl: &VarDecl, my_index: u64, st: &mut GenState) -> (r: (String, String, String))
    ensures
        frag3(r) == read_register_spec(my_decl@, my_index, *old(st)).0,
        *final(st) == read_register_spec(my_decl@, my_index, *old(st)).1,
{
    let (control, mut actions, commons) = get_NEW_ACTION(st);
    let line = register_read_line(my_decl, my_index);
    actions.append(line.as_str());
    actions.append("}\n");
    (control, actions, commons)
}

/// Reads a register into its metadata field, inside the action that is open.
pub fn handle_read_register_v2(my_decl: &VarDecl, my_index: u64) -> (r: (String, String, String))
    ensures frag3(r) == frag_actions(register_read_text(my_decl@, my_index)),
{
    let line = register_read_line(my_decl, my_index);
    (String::new(), line, String::new())
}

// ---------------------------------------------------------------------------------------------
// Assignments of a value or of another variable
// ---------------------------------------------------------------------------------------------

/// The statement that stores a value in a variable, by the variable's qualifier; none for
/// variables that the generated program does not store.
pub open spec fn value_assign_body(l: SpecVarDecl, lidx: u64, val: u64) -> Option<Seq<char>> {
    match l.type_qualifier {
        TypeQualifier::Transient => Some(tab() + "modify_field("@ + meta_ref(l.id) + ", "@ + dec(val) + ");\n"@),
        TypeQualifier::Persistent => Some(tab() + "register_write("@ + l.id + ", "@ + dec(lidx) + ", "@ + dec(val) + ");\n"@),
        TypeQualifier::Field => Some(tab() + "modify_field("@ + l.id + ", "@ + dec(val) + ");\n"@),
        _ => None,
    }
}

pub open spec fn value_assignment_spec(l: SpecVarDecl, lidx: u64, val: u64, st: GenState) -> (Frag, GenState) {
    match value_assign_body(l, lidx, val) {
        Some(b) => in_action(st, b),
        None => (frag_empty(), st),
    }
}

fn emit_body(out: &mut Out, st: &mut GenState, body: Option<String>)
    ensures
        match body {
            Some(b) => {
                &&& final(out)@ == frag_cat(old(out)@, in_action(*old(st), b@).0)
                &&& *final(st) == in_action(*old(st), b@).1
            },
            None => final(out)@ == old(out)@ && *final(st) == *old(st),
        },
{
    match body {
        Some(b) => emit_in_action(out, st, &b),
        None => {},
    }
}

fn value_assign_line(l: &VarDecl, lidx: u64, val: u64) -> (r: Option<String>)
    ensures
        match r {
            Some(b) => value_assign_body(l@, lidx, val) == Some(b@),
            None => value_assign_body(l@, lidx, val) is None,
        },
{
    let mut s = String::new();
    s.append("    ");
    match l.type_qualifier {
        TypeQualifier::Transient => {
            s.append("modify_field(");
            push_meta_ref(&mut s, &l.id);
        },
        TypeQualifier::Persistent => {
            s.append("register_write(");
            s.append(l.id.as_str());
            s.append(", ");
            push_dec(&mut s, lidx);
        },
        TypeQualifier::Field => {
            s.append("modify_field(");
            s.append(l.id.as_str());
        },
        _ => {
            return None;
        },
    }
    s.append(", ");
    push_dec(&mut s, val);
    s.append(");\n");
    Some(s)
}

/// Stores a value in a variable.
pub fn handle_value_assignment(my_lval_decl: &VarDecl, my_lval_index: u64, val: u64, st: &mut GenState)
    -> (r: (String, String, String, String))
    ensures
        frag4(r) == value_assignment_spec(my_lval_decl@, my_lval_index, val, *old(st)).0,
        *final(st) == value_assignment_spec(my_lval_decl@, my_lval_index, val, *old(st)).1,
{
    let mut out = Out::new();
    let body = value_assign_line(my_lval_decl, my_lval_index, val);
    emit_body(&mut out, st, body);
    out.finish4()
}

/// How a register that is read from is brought into metadata: in an action of its own, or
/// inside the action that is open.
#[derive(Debug, PartialEq, Eq, Structural, Clone, Copy)]
pub enum RegisterRead {
    OwnAction,
    InPlace,
}

/// The text that makes a variable readable, the state after it, and whether the variable is
/// then read from the metadata header.
pub open spec fn read_operand_spec(r: SpecVarDecl, ridx: u64, style: RegisterRead, st: GenState) -> (Frag, GenState, bool) {
    match r.type_qualifier {
        TypeQualifier::Persistent => match style {
            RegisterRead::OwnAction => (read_register_spec(r, ridx, st).0, read_register_spec(r, ridx, st).1, true),
            RegisterRead::InPlace => (frag_actions(register_read_text(r, ridx)), st, true),
        },
        TypeQualifier::Transient => (frag_empty(), st, true),
        _ => (frag_empty(), st, false),
    }
}

fn read_operand(out: &mut Out, st: &mut GenState, r: &VarDecl, ridx: u64, style: RegisterRead) -> (in_meta: bool)
    ensures
        final(out)@ == frag_cat(old(out)@, read_operand_spec(r@, ridx, style, *old(st)).0),
        *final(st) == read_operand_spec(r@, ridx, style, *old(st)).1,
        in_meta == read_operand_spec(r@, ridx, style, *old(st)).2,
{
    match r.type_qualifier {
        TypeQualifier::Persistent => {
            match style {
                RegisterRead::OwnAction => {
                    let t = handle_read_register(r, ridx, st);
                    out.add3(t);
                },
                RegisterRead::InPlace => {
                    let t = handle_read_register_v2(r, ridx);
                    out.add3(t);
                },
            }
            true
        },
        TypeQualifier::Transient => {
            assert(frag_cat(old(out)@, frag_empty()) == old(out)@);
            true
        },
        _ => {
            assert(frag_cat(old(out)@, frag_empty()) == old(out)@);
            false
        },
    }
}

/// The statement that copies `r` into `l`, by the qualifier of `l`.
pub open spec fn ref_assign_body(l: SpecVarDecl, lidx: u64, r: SpecVarDecl, ridx: u64, in_meta: bool) -> Option<Seq<char>> {
    match l.type_qualifier {
        TypeQualifier::Transient => Some(tab() + "modify_field("@ + meta_ref(l.id) + ", "@ + operand_ref(in_meta, r.id) + ");\n"@),
        TypeQualifier::Persistent => Some(tab() + "register_write("@ + l.id + ", "@
            + (if in_meta { dec(lidx) + ", "@ + meta_ref(r.id) } else { dec(ridx) + ", "@ + r.id }) + ");\n"@),
        TypeQualifier::Field => Some(tab() + "modify_field("@ + l.id + ", "@ + operand_ref(in_meta, r.id) + ");\n"@),
        _ => None,
    }
}

pub open spec fn ref_assignment_spec(l: SpecVarDecl, lidx: u64, r: SpecVarDecl, ridx: u64, style: RegisterRead, st: GenState) -> (Frag, GenState) {
    let (f1, st1, m) = read_operand_spec(r, ridx, style, st);
    match ref_assign_body(l, lidx, r, ridx, m) {
        Some(b) => (frag_cat(f1, in_action(st1, b).0), in_action(st1, b).1),
        None => (f1, st1),
    }
}

fn ref_assign_line(l: &VarDecl, lidx: u64, r: &VarDecl, ridx: u64, in_meta: bool) -> (res: Option<String>)
    ensures
        match res {
            Some(b) => ref_assign_body(l@, lidx, r@, ridx, in_meta) == Some(b@),
            None => ref_assign_body(l@, lidx, r@, ridx, in_meta) is None,
        },
{
    let mut s = String::new();
    s.append("    ");
    match l.type_qualifier {
        TypeQualifier::Transient => {
            s.append("modify_field(");
            push_meta_ref(&mut s, &l.id);
            s.append(", ");
            push_operand_ref(&mut s, in_meta, &r.id);
        },
        TypeQualifier::Persistent => {
            s.append("register_write(");
            s.append(l.id.as_str());
            s.append(", ");
            if in_meta {
                push_dec(&mut s, lidx);
                s.append(", ");
                push_meta_ref(&mut s, &r.id);
            } else {
                push_dec(&mut s, ridx);
                s.append(", ");
                s.append(r.id.as_str());
            }
        },
        TypeQualifier::Field => {
            s.append("modify_field(");
            s.append(l.id.as_str());
            s.append(", ");
            push_operand_ref(&mut s, in_meta, &r.id);
        },
        _ => {
            return None;
        },
    }
    s.append(");\n");
    Some(s)
}

/// Copies one variable into another, reading it from its register first where it is one.
pub fn handle_ref_assignment(my_lval_decl: &VarDecl, my_lval_index: u64, my_rval_decl: &VarDecl, my_rval_index: u64,
    read_reg: RegisterRead, st: &mut GenState) -> (r: (String, String, String, String))
    ensures
        frag4(r) == ref_assignment_spec(my_lval_decl@, my_lval_index, my_rval_decl@, my_rval_index, read_reg, *old(st)).0,
        *final(st) == ref_assignment_spec(my_lval_decl@, my_lval_index, my_rval_decl@, my_rval_index, read_reg, *old(st)).1,
{
    let mut out = Out::new();
    let m = read_operand(&mut out, st, my_rval_decl, my_rval_index, read_reg);
    let body = ref_assign_line(my_lval_decl, my_lval_index, my_rval_decl, my_rval_index, m);
    emit_body(&mut out, st, body);
    out.finish4()
}

// ---------------------------------------------------------------------------------------------
// Conditions
// ---------------------------------------------------------------------------------------------

/// A table that sets `l` to 0 or 1 by an exact match on `temp`, named by the equality or the
/// inequality counter.
pub open spec fn eq_table_spec(temp: Seq<char>, l: SpecVarDecl, eq: bool, st: GenState) -> (Frag, GenState) {
    let tablename = if eq { "eqtable"@ + dec(st.eq_table_count) } else { "neqtable"@ + dec(st.neq_table_count) };
    let actionname = if eq { "eqaction"@ + dec(st.eq_table_count) + "_"@ } else { "neqaction"@ + dec(st.eq_table_count) + "_"@ };
    let st1 = if eq {
        GenState { eq_table_count: st.eq_table_count.wrapping_add(1), ..st }
    } else {
        GenState { neq_table_count: st.neq_table_count.wrapping_add(1), ..st }
    };
    (Frag {
        control: tab() + "apply("@ + tablename + ");\n"@,
        actions: "action "@ + actionname + "0 () {\n"@
            + tab() + "modify_field("@ + meta_ref(l.id) + ", 0); \n}\n"@
            + "action "@ + actionname + "1 () {\n"@
            + tab() + "modify_field("@ + meta_ref(l.id) + ", 1); \n}\n"@,
        commons: "table "@ + tablename + " {\n"@
            + tab() + "reads {\n"@
            + tab() + tab() + temp + " : exact;\n"@ + tab() + "}\n"@
            + tab() + "actions {\n"@
            + tab() + tab() + actionname + "0;\n"@
            + tab() + tab() + actionname + "1;\n"@
            + tab() + "}\n"@
            + "}\n"@,
        metadecl: Seq::empty(),
    }, GenState { eq_table_count: st1.eq_table_count.wrapping_add(1), ..st1 })
}

/// A table that sets `l` from an exact match on `my_temp_decl`.
pub fn get_new_eq_table(my_temp_decl: &String, my_lval_decl: &VarDecl, eq: bool, st: &mut GenState) -> (r: (String, String, String))
    ensures
        frag3(r) == eq_table_spec(my_temp_decl@, my_lval_decl@, eq, *old(st)).0,
        *final(st) == eq_table_spec(my_temp_decl@, my_lval_decl@, eq, *old(st)).1,
{
    let mut tablename = String::new();
    let mut actionname = String::new();
    if eq {
        tablename.append("eqtable");
        push_dec(&mut tablename, st.eq_table_count);
        actionname.append("eqaction");
        push_dec(&mut actionname, st.eq_table_count);
        actionname.append("_");
        st.eq_table_count = st.eq_table_count.wrapping_add(1);
    } else {
        tablename.append("neqtable");
        push_dec(&mut tablename, st.neq_table_count);
        actionname.append("neqaction");
        push_dec(&mut actionname, st.eq_table_count);
        actionname.append("_");
        st.neq_table_count = st.neq_table_count.wrapping_add(1);
    }
    let mut control = String::new();
    control.append("    ");
    control.append("apply(");
    control.append(tablename.as_str());
    control.append(");\n");

    let mut actions = String::new();
    actions.append("action ");
    actions.append(actionname.as_str());
    actions.append("0 () {\n");
    actions.append("    ");
    actions.append("modify_field(");
    push_meta_ref(&mut actions, &my_lval_decl.id);
    actions.append(", 0); \n}\n");
    actions.append("action ");
    actions.append(actionname.as_str());
    actions.append("1 () {\n");
    actions.append("    ");
    actions.append("modify_field(");
    push_meta_ref(&mut actions, &my_lval_decl.id);
    actions.append(", 1); \n}\n");

    let mut commons = String::new();
    commons.append("table ");
    commons.append(tablename.as_str());
    commons.append(" {\n");
    commons.append("    ");
    commons.append("reads {\n");
    commons.append("    ");
    commons.append("    ");
    commons.append(my_temp_decl.as_str());
    commons.append(" : exact;\n");
    commons.append("    ");
    commons.append("}\n");
    commons.append("    ");
    commons.append("actions {\n");
    commons.append("    ");
    commons.append("    ");
    commons.append(actionname.as_str());
    commons.append("0;\n");
    commons.append("    ");
    commons.append("    ");
    commons.append(actionname.as_str());
    commons.append("1;\n");
    commons.append("    ");
    commons.append("}\n");
    commons.append("}\n");
    st.eq_table_count = st.eq_table_count.wrapping_add(1);
    (control, actions, commons)
}

pub open spec fn temp_decl_id(st: GenState) -> Seq<char> {
    "temp"@ + dec(st.temp_count)
}

/// The difference of two operands into a temporary, in an action of its own, followed for
/// `==` and `!=` by a table that sets `l` from the temporary.
pub open spec fn subtract_condition_spec(op: BinOpType, l: SpecVarDecl, first: Seq<char>, second: Seq<char>,
    ne_as_eq: bool, st: GenState) -> (Frag, GenState)
{
    let temp_use = mdata() + "."@ + temp_decl_id(st);
    let na = new_action_frag(st);
    let st1 = after_new_action(st);
    let f = Frag {
        control: na.control,
        actions: na.actions + tab() + "subtract("@ + temp_use + ","@ + first + ","@ + second + "}\n"@,
        commons: na.commons,
        metadecl: temp_decl_id(st) + " : "@ + dec(32) + ";\n"@,
    };
    match op {
        BinOpType::Equal => (frag_cat(f, eq_table_spec(temp_use, l, true, st1).0), eq_table_spec(temp_use, l, true, st1).1),
        BinOpType::NotEqual => (frag_cat(f, eq_table_spec(temp_use, l, ne_as_eq, st1).0), eq_table_spec(temp_use, l, ne_as_eq, st1).1),
        _ => (f, st1),
    }
}

fn subtract_condition(op: BinOpType, l: &VarDecl, first: &String, second: &String, ne_as_eq: bool, st: &mut GenState)
    -> (r: (String, String, String, String))
    ensures
        frag4(r) == subtract_condition_spec(op, l@, first@, second@, ne_as_eq, *old(st)).0,
        *final(st) == subtract_condition_spec(op, l@, first@, second@, ne_as_eq, *old(st)).1,
{
    let mut temp_decl = String::new();
    temp_decl.append("temp");
    push_dec(&mut temp_decl, st.temp_count);
    let mut temp_use = String::new();
    temp_use.append("mdata");
    temp_use.append(".");
    temp_use.append(temp_decl.as_str());
    let mut out = Out::new();
    out.metadecl.append(temp_decl.as_str());
    out.metadecl.append(" : ");
    push_dec(&mut out.metadecl, 32);
    out.metadecl.append(";\n");
    let (a, b, c) = get_NEW_ACTION(st);
    out.control.append(a.as_str());
    out.actions.append(b.as_str());
    out.commons.append(c.as_str());
    out.actions.append("    ");
    out.actions.append("subtract(");
    out.actions.append(temp_use.as_str());
    out.actions.append(",");
    out.actions.append(first.as_str());
    out.actions.append(",");
    out.actions.append(second.as_str());
    out.actions.append("}\n");
    match op {
        BinOpType::Equal => {
            let t = get_new_eq_table(&temp_use, l, true, st);
            out.add3(t);
        },
        BinOpType::NotEqual => {
            let t = get_new_eq_table(&temp_use, l, ne_as_eq, st);
            out.add3(t);
        },
        _ => {},
    }
    out.finish4()
}

/// A condition on two variables, computed by subtraction and matched by a table.
pub fn handle_condition_refs(bin_op_type: BinOpType, my_lval_decl: &VarDecl, prefix1: &str, my_rval1_decl: &VarDecl,
    prefix2: &str, my_rval2_decl: &VarDecl, st: &mut GenState) -> (r: (String, String, String, String))
    ensures
        frag4(r) == subtract_condition_spec(bin_op_type, my_lval_decl@, prefixed(prefix1@, my_rval1_decl.id@),
            prefixed(prefix2@, my_rval2_decl.id@) + ");\n"@, false, *old(st)).0,
        *final(st) == subtract_condition_spec(bin_op_type, my_lval_decl@, prefixed(prefix1@, my_rval1_decl.id@),
            prefixed(prefix2@, my_rval2_decl.id@) + ");\n"@, false, *old(st)).1,
{
    let mut first = String::new();
    push_prefixed(&mut first, prefix1, &my_rval1_decl.id);
    let mut second = String::new();
    push_prefixed(&mut second, prefix2, &my_rval2_decl.id);
    second.append(");\n");
    subtract_condition(bin_op_type, my_lval_decl, &first, &second, false, st)
}

/// A condition on a variable and a value, computed by subtraction and matched by a table
/// (an equality table for `!=` too).
pub fn handle_condition_refval(bin_op_type: BinOpType, my_lval_decl: &VarDecl, prefix1: &str, my_rval1_decl: &VarDecl,
    val: u64, st: &mut GenState) -> (r: (String, String, String, String))
    ensures
        frag4(r) == subtract_condition_spec(bin_op_type, my_lval_decl@, prefixed(prefix1@, my_rval1_decl.id@),
            dec(val) + ");\n"@, true, *old(st)).0,
        *final(st) == subtract_condition_spec(bin_op_type, my_lval_decl@, prefixed(prefix1@, my_rval1_decl.id@),
            dec(val) + ");\n"@, true, *old(st)).1,
{
    let mut first = String::new();
    push_prefixed(&mut first, prefix1, &my_rval1_decl.id);
    let mut second = String::new();
    push_dec(&mut second, val);
    second.append(");\n");
    subtract_condition(bin_op_type, my_lval_decl, &first, &second, true, st)
}

/// Setting `l` to `bit` in the action that is open, and closing that action.
pub open spec fn set_flag_text(l: SpecVarDecl, bit: Seq<char>) -> Seq<char> {
    if l.type_qualifier == TypeQualifier::Field {
        tab() + "modify_field("@ + l.id + ", "@ + bit + "); \n}\n"@
    } else {
        tab() + "modify_field("@ + meta_ref(l.id) + ", "@ + bit + "); \n}\n"@
    }
}

/// An `if` of the P4 control flow on `test`, whose branches set `l` to 1 and to 0, each in
/// an action of its own.
pub open spec fn branch_spec(test: Seq<char>, l: SpecVarDecl, st: GenState) -> (Frag, GenState) {
    let na1 = new_action_frag(st);
    let st1 = after_new_action(st);
    let na2 = new_action_frag(st1);
    (Frag {
        control: tab() + "if ("@ + test + ") {\n"@ + tab() + na1.control + tab() + "} else {\n"@ + tab() + na2.control + tab() + "}\n"@,
        actions: na1.actions + set_flag_text(l, "1"@) + na2.actions + set_flag_text(l, "0"@),
        commons: na1.commons + na2.commons,
        metadecl: Seq::empty(),
    }, after_new_action(st1))
}

fn push_set_flag(s: &mut String, l: &VarDecl, one: bool)
    ensures final(s)@ == old(s)@ + set_flag_text(l@, if one { "1"@ } else { "0"@ }),
{
    s.append("    ");
    s.append("modify_field(");
    if l.type_qualifier == TypeQualifier::Field {
        s.append(l.id.as_str());
    } else {
        push_meta_ref(s, &l.id);
    }
    s.append(", ");
    if one {
        s.append("1");
    } else {
        s.append("0");
    }
    s.append("); \n}\n");
}

fn branch(test: &String, l: &VarDecl, st: &mut GenState) -> (r: (String, String, String, String))
    ensures
        frag4(r) == branch_spec(test@, l@, *old(st)).0,
        *final(st) == branch_spec(test@, l@, *old(st)).1,
{
    let mut out = Out::new();
    out.control.append("    ");
    out.control.append("if (");
    out.control.append(test.as_str());
    out.control.append(") {\n");
    out.control.append("    ");
    let (a, b, c) = get_NEW_ACTION(st);
    out.control.append(a.as_str());
    out.actions.append(b.as_str());
    out.commons.append(c.as_str());
    push_set_flag(&mut out.actions, l, true);
    out.control.append("    ");
    out.control.append("} else {\n");
    out.control.append("    ");
    let (a, b, c) = get_NEW_ACTION(st);
    out.control.append(a.as_str());
    out.actions.append(b.as_str());
    out.commons.append(c.as_str());
    push_set_flag(&mut out.actions, l, false);
    out.control.append("    ");
    out.control.append("}\n");
    out.finish4()
}

/// A condition on two variables, as an `if` of the control flow.
pub fn handle_condition_refs_v2(bin_op_type: &str, my_lval_decl: &VarDecl, prefix1: &str, my_rval1_decl: &VarDecl,
    prefix2: &str, my_rval2_decl: &VarDecl, st: &mut GenState) -> (r: (String, String, String, String))
    ensures
        frag4(r) == branch_spec(prefixed(prefix1@, my_rval1_decl.id@) + " "@ + bin_op_type@ + " "@
            + prefixed(prefix2@, my_rval2_decl.id@), my_lval_decl@, *old(st)).0,
        *final(st) == branch_spec(prefixed(prefix1@, my_rval1_decl.id@) + " "@ + bin_op_type@ + " "@
            + prefixed(prefix2@, my_rval2_decl.id@), my_lval_decl@, *old(st)).1,
{
    let mut test = String::new();
    push_prefixed(&mut test, prefix1, &my_rval1_decl.id);
    test.append(" ");
    test.append(bin_op_type);
    test.append(" ");
    push_prefixed(&mut test, prefix2, &my_rval2_decl.id);
    branch(&test, my_lval_decl, st)
}

/// A condition on a variable and a value, as an `if` of the control flow.
pub fn handle_condition_refval_v2(bin_op_type: &str, my_lval_decl: &VarDecl, prefix1: &str, my_rval1_decl: &VarDecl,
    val: u64, st: &mut GenState) -> (r: (String, String, String, String))
    ensures
        frag4(r) == branch_spec(prefixed(prefix1@, my_rval1_decl.id@) + " "@ + bin_op_type@ + " "@ + dec(val),
            my_lval_decl@, *old(st)).0,
        *final(st) == branch_spec(prefixed(prefix1@, my_rval1_decl.id@) + " "@ + bin_op_type@ + " "@ + dec(val),
            my_lval_decl@, *old(st)).1,
{
    let mut test = String::new();
    push_prefixed(&mut test, prefix1, &my_rval1_decl.id);
    test.append(" ");
    test.append(bin_op_type);
    test.append(" ");
    push_dec(&mut test, val);
    branch(&test, my_lval_decl, st)
}

// ---------------------------------------------------------------------------------------------
// Binary operations
// ---------------------------------------------------------------------------------------------

/// The P4 primitive that computes an operation, for the operations that have one.
pub open spec fn arith_func(op: BinOpType) -> Option<Seq<char>> {
    match op {
        BinOpType::BooleanAnd => Some("bit_and"@),
        BinOpType::BooleanOr => Some("bit_or"@),
        BinOpType::Plus => Some("add"@),
        BinOpType::Minus => Some("subtract"@),
        _ => None,
    }
}

/// The P4 spelling of a comparison.
pub open spec fn comparison_symbol(op: BinOpType) -> Option<Seq<char>> {
    match op {
        BinOpType::Equal => Some("=="@),
        BinOpType::NotEqual => Some("!="@),
        BinOpType::GreaterThan => Some(">"@),
        BinOpType::LessThan => Some("<"@),
        BinOpType::GTEQOp => Some(">="@),
        BinOpType::LTEQOp => Some("<="@),
        _ => None,
    }
}

/// The P4 comparison generated for an operation is the operation itself: the comparisons are
/// exactly `==`, `!=`, `>`, `<`, `>=` and `<=`; the symbol, between spaces, is the operation's
/// spelling (`binop_text`), and it is the text of the token that the parser reads as that
/// operation.
pub proof fn lemma_comparison_spelling(op: BinOpType)
    ensures
        comparison_symbol(op) is Some <==> (op == BinOpType::Equal || op == BinOpType::NotEqual
            || op == BinOpType::GreaterThan || op == BinOpType::LessThan || op == BinOpType::GTEQOp
            || op == BinOpType::LTEQOp),
        comparison_symbol(op) is Some ==> " "@ + comparison_symbol(op)->Some_0 + " "@ == crate::trans_snippet::binop_text(op),
        comparison_symbol(op) is Some ==> forall|t: crate::token::SpecToken| crate::parser::spec_binop(t) == Some(op)
            ==> crate::lexer::token_text(t) == comparison_symbol(op)->Some_0,
{
    reveal_strlit(" ");
    reveal_strlit("==");
    reveal_strlit("!=");
    reveal_strlit(">");
    reveal_strlit("<");
    reveal_strlit(">=");
    reveal_strlit("<=");
    reveal_strlit(" == ");
    reveal_strlit(" != ");
    reveal_strlit(" > ");
    reveal_strlit(" < ");
    reveal_strlit(" >= ");
    reveal_strlit(" <= ");
    match op {
        BinOpType::Equal => {
            assert(" "@ + comparison_symbol(op)->Some_0 + " "@ =~= crate::trans_snippet::binop_text(op));
            assert forall|t: crate::token::SpecToken| crate::parser::spec_binop(t) == Some(op)
                implies crate::lexer::token_text(t) == comparison_symbol(op)->Some_0 by {
                assert(t == crate::token::SpecToken::Equal);
                assert(crate::lexer::token_text(t) =~= comparison_symbol(op)->Some_0);
            }
        },
        BinOpType::NotEqual => {
            assert(" "@ + comparison_symbol(op)->Some_0 + " "@ =~= crate::trans_snippet::binop_text(op));
            assert forall|t: crate::token::SpecToken| crate::parser::spec_binop(t) == Some(op)
                implies crate::lexer::token_text(t) == comparison_symbol(op)->Some_0 by {
                assert(t == crate::token::SpecToken::NotEqual);
                assert(crate::lexer::token_text(t) =~= comparison_symbol(op)->Some_0);
            }
        },
        BinOpType::GreaterThan => {
            assert(" "@ + comparison_symbol(op)->Some_0 + " "@ =~= crate::trans_snippet::binop_text(op));
            assert forall|t: crate::token::SpecToken| crate::parser::spec_binop(t) == Some(op)
                implies crate::lexer::token_text(t) == comparison_symbol(op)->Some_0 by {
                assert(t == crate::token::SpecToken::GreaterThan);
                assert(crate::lexer::token_text(t) =~= comparison_symbol(op)->Some_0);
            }
        },
        BinOpType::LessThan => {
            assert(" "@ + comparison_symbol(op)->Some_0 + " "@ =~= crate::trans_snippet::binop_text(op));
            assert forall|t: crate::token::SpecToken| crate::parser::spec_binop(t) == Some(op)
                implies crate::lexer::token_text(t) == comparison_symbol(op)->Some_0 by {
                assert(t == crate::token::SpecToken::LessThan);
                assert(crate::lexer::token_text(t) =~= comparison_symbol(op)->Some_0);
            }
        },
        BinOpType::GTEQOp => {
            assert(" "@ + comparison_symbol(op)->Some_0 + " "@ =~= crate::trans_snippet::binop_text(op));
            assert forall|t: crate::token::SpecToken| crate::parser::spec_binop(t) == Some(op)
                implies crate::lexer::token_text(t) == comparison_symbol(op)->Some_0 by {
                assert(t == crate::token::SpecToken::GTEQOp);
                assert(crate::lexer::token_text(t) =~= comparison_symbol(op)->Some_0);
            }
        },
        BinOpType::LTEQOp => {
            assert(" "@ + comparison_symbol(op)->Some_0 + " "@ =~= crate::trans_snippet::binop_text(op));
            assert forall|t: crate::token::SpecToken| crate::parser::spec_binop(t) == Some(op)
                implies crate::lexer::token_text(t) == comparison_symbol(op)->Some_0 by {
                assert(t == crate::token::SpecToken::LTEQOp);
                assert(crate::lexer::token_text(t) =~= comparison_symbol(op)->Some_0);
            }
        },
        _ => {},
    }
}

fn arith_func_str(op: BinOpType) -> (r: Option<&'static str>)
    ensures
        match r {
            Some(f) => arith_func(op) == Some(f@),
            None => arith_func(op) is None,
        },
{
    match op {
        BinOpType::BooleanAnd => Some("bit_and"),
        BinOpType::BooleanOr => Some("bit_or"),
        BinOpType::Plus => Some("add"),
        BinOpType::Minus => Some("subtract"),
        _ => None,
    }
}

fn comparison_symbol_str(op: BinOpType) -> (r: Option<&'static str>)
    ensures
        match r {
            Some(f) => comparison_symbol(op) == Some(f@),
            None => comparison_symbol(op) is None,
        },
{
    match op {
        BinOpType::Equal => Some("=="),
        BinOpType::NotEqual => Some("!="),
        BinOpType::GreaterThan => Some(">"),
        BinOpType::LessThan => Some("<"),
        BinOpType::GTEQOp => Some(">="),
        BinOpType::LTEQOp => Some("<="),
        _ => None,
    }
}

pub open spec fn register_write_back(l: SpecVarDecl, lidx: u64) -> Seq<char> {
    tab() + "register_write("@ + l.id + ", "@ + dec(lidx) + ", "@ + meta_ref(l.id) + ");\n"@
}

fn push_register_write_back(s: &mut String, l: &VarDecl, lidx: u64)
    ensures final(s)@ == old(s)@ + register_write_back(l@, lidx),
{
    s.append("    ");
    s.append("register_write(");
    s.append(l.id.as_str());
    s.append(", ");
    push_dec(s, lidx);
    s.append(", ");
    push_meta_ref(s, &l.id);
    s.append(");\n");
}

/// The statement that computes `func` of two variables into `l`.
pub open spec fn refs_arith_body(l: SpecVarDecl, lidx: u64, func: Seq<char>, r1: SpecVarDecl, m1: bool,
    r2: SpecVarDecl, m2: bool) -> Option<Seq<char>>
{
    match l.type_qualifier {
        TypeQualifier::Transient => Some(tab() + func + "("@ + meta_ref(l.id) + ","@ + operand_ref(m1, r1.id) + ","@
            + operand_ref(m2, r2.id) + ");\n"@),
        TypeQualifier::Persistent => Some(tab() + func + "("@ + meta_ref(l.id) + ", "@ + operand_ref(m1, r1.id) + ", "@
            + operand_ref(m2, r2.id) + ");\n"@ + register_write_back(l, lidx)),
        TypeQualifier::Field => Some(tab() + func + "("@ + l.id + ","@ + r1.id + ","@ + r2.id + ");\n"@),
        _ => None,
    }
}

/// The arithmetic part of an assignment, where the operation has a P4 primitive.
pub open spec fn arith_part(body: Option<Seq<char>>, st: GenState) -> (Frag, GenState) {
    match body {
        Some(b) => in_action(st, b),
        None => (frag_empty(), st),
    }
}

pub open spec fn binop_refs_spec(l: SpecVarDecl, lidx: u64, r1: SpecVarDecl, r1idx: u64, op: BinOpType,
    r2: SpecVarDecl, r2idx: u64, st: GenState) -> (Frag, GenState)
{
    let (f1, st1, m1) = read_operand_spec(r1, r1idx, RegisterRead::OwnAction, st);
    let (f2, st2, m2) = read_operand_spec(r2, r2idx, RegisterRead::OwnAction, st1);
    let (f3, st3) = match comparison_symbol(op) {
        Some(sym) => branch_spec(operand_ref(m1, r1.id) + " "@ + sym + " "@ + operand_ref(m2, r2.id), l, st2),
        None => (frag_empty(), st2),
    };
    let (f4, st4) = match arith_func(op) {
        Some(func) => arith_part(refs_arith_body(l, lidx, func, r1, m1, r2, m2), st3),
        None => (frag_empty(), st3),
    };
    (frag_cat(frag_cat(f1, f2), frag_cat(f3, f4)), st4)
}

fn refs_arith_line(l: &VarDecl, lidx: u64, func: &str, r1: &VarDecl, m1: bool, r2: &VarDecl, m2: bool) -> (res: Option<String>)
    ensures
        match res {
            Some(b) => refs_arith_body(l@, lidx, func@, r1@, m1, r2@, m2) == Some(b@),
            None => refs_arith_body(l@, lidx, func@, r1@, m1, r2@, m2) is None,
        },
{
    let mut s = String::new();
    s.append("    ");
    s.append(func);
    s.append("(");
    match l.type_qualifier {
        TypeQualifier::Transient => {
            push_meta_ref(&mut s, &l.id);
            s.append(",");
            push_operand_ref(&mut s, m1, &r1.id);
            s.append(",");
            push_operand_ref(&mut s, m2, &r2.id);
            s.append(");\n");
        },
        TypeQualifier::Persistent => {
            push_meta_ref(&mut s, &l.id);
            s.append(", ");
            push_operand_ref(&mut s, m1, &r1.id);
            s.append(", ");
            push_operand_ref(&mut s, m2, &r2.id);
            s.append(");\n");
            push_register_write_back(&mut s, l, lidx);
        },
        TypeQualifier::Field => {
            s.append(l.id.as_str());
            s.append(",");
            s.append(r1.id.as_str());
            s.append(",");
            s.append(r2.id.as_str());
            s.append(");\n");
        },
        _ => {
            return None;
        },
    }
    Some(s)
}

fn emit_arith(out: &mut Out, st: &mut GenState, body: Option<String>)
    ensures
        final(out)@ == frag_cat(old(out)@, arith_part(match body { Some(b) => Some(b@), None => None }, *old(st)).0),
        *final(st) == arith_part(match body { Some(b) => Some(b@), None => None }, *old(st)).1,
{
    match body {
        Some(b) => emit_in_action(out, st, &b),
        None => {
            assert(frag_cat(old(out)@, frag_empty()) == old(out)@);
        },
    }
}

fn meta_prefix_str(in_meta: bool) -> (p: &'static str)
    ensures p@ == meta_prefix(in_meta),
{
    proof {
        lemma_meta_prefix(in_meta, Seq::empty());
    }
    if in_meta {
        "mdata"
    } else {
        ""
    }
}

/// An assignment of an operation on two variables: the reads of registers, then the
/// comparison as a branch or the operation as an action.
pub fn handle_binop_refs_assignment(my_lval_decl: &VarDecl, my_lval_index: u64, my_rval1_decl: &VarDecl,
    my_rval1_index: u64, bin_op_type: BinOpType, my_rval2_decl: &VarDecl, my_rval2_index: u64, decl_map: &DeclMap,
    st: &mut GenState) -> (r: (String, String, String, String))
    ensures
        frag4(r) == binop_refs_spec(my_lval_decl@, my_lval_index, my_rval1_decl@, my_rval1_index, bin_op_type,
            my_rval2_decl@, my_rval2_index, *old(st)).0,
        *final(st) == binop_refs_spec(my_lval_decl@, my_lval_index, my_rval1_decl@, my_rval1_index, bin_op_type,
            my_rval2_decl@, my_rval2_index, *old(st)).1,
{
    let mut out = Out::new();
    let m1 = read_operand(&mut out, st, my_rval1_decl, my_rval1_index, RegisterRead::OwnAction);
    let m2 = read_operand(&mut out, st, my_rval2_decl, my_rval2_index, RegisterRead::OwnAction);
    let mut out2 = Out::new();
    match comparison_symbol_str(bin_op_type) {
        Some(sym) => {
            let p1 = meta_prefix_str(m1);
            let p2 = meta_prefix_str(m2);
            proof {
                lemma_meta_prefix(m1, my_rval1_decl.id@);
                lemma_meta_prefix(m2, my_rval2_decl.id@);
            }
            let t = handle_condition_refs_v2(sym, my_lval_decl, p1, my_rval1_decl, p2, my_rval2_decl, st);
            out2.add4(t);
        },
        None => {},
    }
    let mut out3 = Out::new();
    match arith_func_str(bin_op_type) {
        Some(func) => {
            let body = refs_arith_line(my_lval_decl, my_lval_index, func, my_rval1_decl, m1, my_rval2_decl, m2);
            emit_arith(&mut out3, st, body);
        },
        None => {},
    }
    out2.add4(out3.finish4());
    out.add4(out2.finish4());
    out.finish4()
}

/// The operands of an operation on a variable and a value, in the order given.
pub open spec fn refval_args(first: Seq<char>, val: u64, ordering: bool) -> Seq<char> {
    if ordering {
        first + ","@ + dec(val) + ");\n"@
    } else {
        dec(val) + ",\n"@ + first + ");"@
    }
}

pub open spec fn refval_arith_body(l: SpecVarDecl, lidx: u64, func: Seq<char>, r: SpecVarDecl, m: bool, val: u64,
    ordering: bool) -> Option<Seq<char>>
{
    match l.type_qualifier {
        TypeQualifier::Transient => Some(tab() + func + "("@ + meta_ref(l.id) + ","@ + refval_args(operand_ref(m, r.id), val, ordering)),
        TypeQualifier::Persistent => Some(tab() + func + "("@ + meta_ref(l.id) + ","@ + refval_args(operand_ref(m, r.id), val, ordering)
            + register_write_back(l, lidx)),
        TypeQualifier::Field => Some(tab() + func + "("@ + l.id + ","@ + refval_args(r.id, val, ordering)),
        _ => None,
    }
}

pub open spec fn binop_refval_spec(l: SpecVarDecl, lidx: u64, r: SpecVarDecl, ridx: u64, op: BinOpType, val: u64,
    ordering: bool, st: GenState) -> (Frag, GenState)
{
    let (f1, st1, m) = read_operand_spec(r, ridx, RegisterRead::OwnAction, st);
    let (f2, st2) = match comparison_symbol(op) {
        Some(sym) => branch_spec(operand_ref(m, r.id) + " "@ + sym + " "@ + dec(val), l, st1),
        None => (frag_empty(), st1),
    };
    let (f3, st3) = match arith_func(op) {
        Some(func) => arith_part(refval_arith_body(l, lidx, func, r, m, val, ordering), st2),
        None => (frag_empty(), st2),
    };
    (frag_cat(f1, frag_cat(f2, f3)), st3)
}

fn push_refval_args(s: &mut String, m: bool, id: &String, val: u64, ordering: bool)
    ensures final(s)@ == old(s)@ + refval_args(operand_ref(m, id@), val, ordering),
{
    if ordering {
        push_operand_ref(s, m, id);
        s.append(",");
        push_dec(s, val);
        s.append(");\n");
    } else {
        push_dec(s, val);
        s.append(",\n");
        push_operand_ref(s, m, id);
        s.append(");");
    }
}

fn refval_arith_line(l: &VarDecl, lidx: u64, func: &str, r: &VarDecl, m: bool, val: u64, ordering: bool) -> (res: Option<String>)
    ensures
        match res {
            Some(b) => refval_arith_body(l@, lidx, func@, r@, m, val, ordering) == Some(b@),
            None => refval_arith_body(l@, lidx, func@, r@, m, val, ordering) is None,
        },
{
    let mut s = String::new();
    s.append("    ");
    s.append(func);
    s.append("(");
    match l.type_qualifier {
        TypeQualifier::Transient => {
            push_meta_ref(&mut s, &l.id);
            s.append(",");
            push_refval_args(&mut s, m, &r.id, val, ordering);
        },
        TypeQualifier::Persistent => {
            push_meta_ref(&mut s, &l.id);
            s.append(",");
            push_refval_args(&mut s, m, &r.id, val, ordering);
            push_register_write_back(&mut s, l, lidx);
        },
        TypeQualifier::Field => {
            s.append(l.id.as_str());
            s.append(",");
            push_refval_args(&mut s, false, &r.id, val, ordering);
        },
        _ => {
            return None;
        },
    }
    Some(s)
}

/// An assignment of an operation on a variable and a value; `ordering` tells whether the
/// variable comes first.
pub fn handle_binop_refval_assignment(my_lval_decl: &VarDecl, my_lval_index: u64, my_rval_decl: &VarDecl,
    my_rval_index: u64, bin_op_type: BinOpType, val2: u64, decl_map: &DeclMap, ordering: bool, st: &mut GenState)
    -> (r: (String, String, String, String))
    ensures
        frag4(r) == binop_refval_spec(my_lval_decl@, my_lval_index, my_rval_decl@, my_rval_index, bin_op_type, val2,
            ordering, *old(st)).0,
        *final(st) == binop_refval_spec(my_lval_decl@, my_lval_index, my_rval_decl@, my_rval_index, bin_op_type, val2,
            ordering, *old(st)).1,
{
    let mut out = Out::new();
    let m = read_operand(&mut out, st, my_rval_decl, my_rval_index, RegisterRead::OwnAction);
    let mut out2 = Out::new();
    match comparison_symbol_str(bin_op_type) {
        Some(sym) => {
            let p = meta_prefix_str(m);
            proof {
                lemma_meta_prefix(m, my_rval_decl.id@);
            }
            let t = handle_condition_refval_v2(sym, my_lval_decl, p, my_rval_decl, val2, st);
            out2.add4(t);
        },
        None => {},
    }
    let mut out3 = Out::new();
    match arith_func_str(bin_op_type) {
        Some(func) => {
            let body = refval_arith_line(my_lval_decl, my_lval_index, func, my_rval_decl, m, val2, ordering);
            emit_arith(&mut out3, st, body);
        },
        None => {},
    }
    out2.add4(out3.finish4());
    out.add4(out2.finish4());
    out.finish4()
}

pub open spec fn vals_arith_body(l: SpecVarDecl, lidx: u64, func: Seq<char>, v1: u64, v2: u64) -> Option<Seq<char>> {
    match l.type_qualifier {
        TypeQualifier::Transient => Some(tab() + func + "("@ + meta_ref(l.id) + ","@ + dec(v1) + ", "@ + dec(v2) + ");\n"@),
        TypeQualifier::Persistent => Some(tab() + func + "("@ + meta_ref(l.id) + ","@ + dec(v1) + ", "@ + dec(v2) + ");\n"@
            + register_write_back(l, lidx)),
        TypeQualifier::Field => Some(tab() + func + "("@ + l.id + ","@ + dec(v1) + ", "@ + dec(v2) + ");\n"@),
        _ => None,
    }
}

pub open spec fn binop_vals_spec(l: SpecVarDecl, lidx: u64, v1: u64, op: BinOpType, v2: u64, st: GenState) -> (Frag, GenState) {
    match arith_func(op) {
        Some(func) => arith_part(vals_arith_body(l, lidx, func, v1, v2), st),
        None => (frag_empty(), st),
    }
}

fn vals_arith_line(l: &VarDecl, lidx: u64, func: &str, v1: u64, v2: u64) -> (res: Option<String>)
    ensures
        match res {
            Some(b) => vals_arith_body(l@, lidx, func@, v1, v2) == Some(b@),
            None => vals_arith_body(l@, lidx, func@, v1, v2) is None,
        },
{
    let mut s = String::new();
    s.append("    ");
    s.append(func);
    s.append("(");
    match l.type_qualifier {
        TypeQualifier::Transient | TypeQualifier::Persistent => {
            push_meta_ref(&mut s, &l.id);
        },
        TypeQualifier::Field => {
            s.append(l.id.as_str());
        },
        _ => {
            return None;
        },
    }
    s.append(",");
    push_dec(&mut s, v1);
    s.append(", ");
    push_dec(&mut s, v2);
    s.append(");\n");
    if l.type_qualifier == TypeQualifier::Persistent {
        push_register_write_back(&mut s, l, lidx);
    }
    Some(s)
}

/// An assignment of an operation on two values. Comparisons of two values are not
/// generated.
pub fn handle_binop_vals_assignment(my_lval_decl: &VarDecl, my_lval_index: u64, val1: u64, bin_op_type: BinOpType,
    val2: u64, decl_map: &DeclMap, st: &mut GenState) -> (r: (String, String, String, String))
    requires
        comparison_symbol(bin_op_type) is None,
    ensures
        frag4(r) == binop_vals_spec(my_lval_decl@, my_lval_index, val1, bin_op_type, val2, *old(st)).0,
        *final(st) == binop_vals_spec(my_lval_decl@, my_lval_index, val1, bin_op_type, val2, *old(st)).1,
{
    let mut out = Out::new();
    match arith_func_str(bin_op_type) {
        Some(func) => {
            let body = vals_arith_line(my_lval_decl, my_lval_index, func, val1, val2);
            emit_arith(&mut out, st, body);
        },
        None => {},
    }
    out.finish4()
}

// ---------------------------------------------------------------------------------------------
// Conditional assignments
// ---------------------------------------------------------------------------------------------

/// The name under which a variable, an array or a packet field is declared.
pub open spec fn lvalue_key(lv: SpecLValue) -> Seq<char> {
    match lv {
        SpecLValue::Scalar(id) => id,
        SpecLValue::Array(id, _) => id,
        SpecLValue::Field(p, f) => p + "."@ + f,
    }
}

fn push_lvalue_key(s: &mut String, lv: &LValue)
    ensures final(s)@ == old(s)@ + lvalue_key(lv@),
{
    match lv {
        LValue::Scalar(id) => s.append(id.id_name.as_str()),
        LValue::Array(id, _) => s.append(id.id_name.as_str()),
        LValue::Field(p, f) => {
            s.append(p.id_name.as_str());
            s.append(".");
            s.append(f.id_name.as_str());
        },
    }
}

/// The declaration that `my_id` maps to.
pub fn get_decl<'a>(my_id: &str, decl_map: &'a DeclMap) -> (r: &'a VarDecl)
    requires
        decl_map@.contains_key(my_id@),
    ensures
        decl_map@[my_id@] == r@,
{
    let mut key = String::new();
    key.append(my_id);
    decl_map.get(&key).unwrap()
}

/// Whether the declaration of an operand can be found.
pub open spec fn action_operand_ok(o: SpecOperand, map: Map<Seq<char>, SpecVarDecl>) -> bool {
    match o {
        SpecOperand::LValue(lv) => map_get(map, lvalue_key(lv)) is Some,
        SpecOperand::Value(_) => true,
    }
}

pub open spec fn action_operand_spec(l: SpecVarDecl, lidx: u64, o: SpecOperand, map: Map<Seq<char>, SpecVarDecl>, st: GenState) -> (Frag, GenState) {
    match o {
        SpecOperand::LValue(lv) => ref_assignment_spec(l, lidx, map_get(map, lvalue_key(lv)).unwrap(), 0, RegisterRead::InPlace, st),
        SpecOperand::Value(v) => value_assignment_spec(l, lidx, v as u64, st),
    }
}

/// The assignment of an operand to `l` inside an action that is already open.
pub fn handle_action_operand(my_lval_decl: &VarDecl, my_lval_index: u64, operand: &Operand, decl_map: &DeclMap,
    st: &mut GenState) -> (r: (String, String, String, String))
    requires
        action_operand_ok(operand@, decl_map@),
    ensures
        frag4(r) == action_operand_spec(my_lval_decl@, my_lval_index, operand@, decl_map@, *old(st)).0,
        *final(st) == action_operand_spec(my_lval_decl@, my_lval_index, operand@, decl_map@, *old(st)).1,
{
    match operand {
        Operand::LValue(lv) => {
            let mut key = String::new();
            push_lvalue_key(&mut key, lv);
            let my_rval_decl = get_decl(key.as_str(), decl_map);
            handle_ref_assignment(my_lval_decl, my_lval_index, my_rval_decl, 0, RegisterRead::InPlace, st)
        },
        Operand::Value(v) => handle_value_assignment(my_lval_decl, my_lval_index, v.value as u64, st),
    }
}

/// `l = r ? o1 : o2`: a table that matches on `r` and applies one of two actions, which
/// assign `o1` and `o2`.
pub open spec fn ternary_spec(l: SpecVarDecl, lidx: u64, r: SpecVarDecl, o1: SpecOperand, o2: SpecOperand, map: Map<Seq<char>, SpecVarDecl>,
    st: GenState) -> (Frag, GenState)
{
    let a1 = "action"@ + dec(st.action_count);
    let a2 = "action"@ + dec(st.action_count.wrapping_add(1));
    let st1 = GenState { action_count: st.action_count.wrapping_add(1).wrapping_add(1), new_action: false, ..st };
    let (g1, st2) = action_operand_spec(l, lidx, o1, map, st1);
    let (g2, st3) = action_operand_spec(l, lidx, o2, map, st2);
    (Frag {
        control: tab() + "apply(table"@ + dec(st.table_count) + ");\n"@ + g1.control + g2.control,
        actions: "action "@ + a1 + " () {\n"@ + g1.actions + "}\n"@ + "action "@ + a2 + " () {\n"@ + g2.actions + "}\n"@,
        commons: g1.commons + g2.commons + "table table"@ + dec(st3.table_count) + " {\n"@ + tab() + "reads {\n"@
            + tab() + tab() + meta_ref(r.id) + " : exact;\n"@ + tab() + "}\n"@ + tab() + "actions {\n"@
            + tab() + tab() + a1 + ";\n"@ + tab() + tab() + a2 + ";\n"@ + tab() + "}\n"@ + "}\n"@,
        metadecl: g1.metadecl + g2.metadecl,
    }, GenState { table_count: st3.table_count.wrapping_add(1), new_action: true, ..st3 })
}

/// Assigns one of two operands by a match on a third variable.
pub fn handle_ternary_assignment(my_lval_decl: &VarDecl, my_lval_index: u64, my_rval_decl: &VarDecl, operand1: &Operand,
    operand2: &Operand, decl_map: &DeclMap, st: &mut GenState) -> (r: (String, String, String, String))
    requires
        action_operand_ok(operand1@, decl_map@),
        action_operand_ok(operand2@, decl_map@),
    ensures
        frag4(r) == ternary_spec(my_lval_decl@, my_lval_index, my_rval_decl@, operand1@, operand2@, decl_map@, *old(st)).0,
        *final(st) == ternary_spec(my_lval_decl@, my_lval_index, my_rval_decl@, operand1@, operand2@, decl_map@, *old(st)).1,
{
    let mut control = String::new();
    control.append("    ");
    control.append("apply(table");
    push_dec(&mut control, st.table_count);
    control.append(");\n");
    let mut action1 = String::new();
    action1.append("action");
    push_dec(&mut action1, st.action_count);
    st.action_count = st.action_count.wrapping_add(1);
    let mut action2 = String::new();
    action2.append("action");
    push_dec(&mut action2, st.action_count);
    st.action_count = st.action_count.wrapping_add(1);
    st.new_action = false;
    let mut actions = String::new();
    actions.append("action ");
    actions.append(action1.as_str());
    actions.append(" () {\n");
    let (a, b, c, d) = handle_action_operand(my_lval_decl, my_lval_index, operand1, decl_map, st);
    control.append(a.as_str());
    actions.append(b.as_str());
    let mut commons = c;
    let mut metadecl = d;
    actions.append("}\n");
    actions.append("action ");
    actions.append(action2.as_str());
    actions.append(" () {\n");
    let (a, b, c, d) = handle_action_operand(my_lval_decl, my_lval_index, operand2, decl_map, st);
    control.append(a.as_str());
    actions.append(b.as_str());
    commons.append(c.as_str());
    metadecl.append(d.as_str());
    actions.append("}\n");
    commons.append("table table");
    push_dec(&mut commons, st.table_count);
    commons.append(" {\n");
    commons.append("    ");
    commons.append("reads {\n");
    commons.append("    ");
    commons.append("    ");
    push_meta_ref(&mut commons, &my_rval_decl.id);
    commons.append(" : exact;\n");
    commons.append("    ");
    commons.append("}\n");
    commons.append("    ");
    commons.append("actions {\n");
    commons.append("    ");
    commons.append("    ");
    commons.append(action1.as_str());
    commons.append(";\n");
    commons.append("    ");
    commons.append("    ");
    commons.append(action2.as_str());
    commons.append(";\n");
    commons.append("    ");
    commons.append("}\n");
    commons.append("}\n");
    st.table_count = st.table_count.wrapping_add(1);
    st.new_action = true;
    (control, actions, commons, metadecl)
}

// ---------------------------------------------------------------------------------------------
// Statements
// ---------------------------------------------------------------------------------------------

/// The first operand of a statement, once its name is looked up.
pub enum SpecFirst {
    Val(u64),
    Decl(SpecVarDecl),
    Skip,
    Fail,
}

/// What a statement turns into: nothing (a name is not declared), a failure (a name that must
/// be there is missing, or the statement has no P4 text), or one kind of assignment with
/// the declarations that it involves.
pub enum StmtPlan {
    Skip,
    Fail,
    Value(SpecVarDecl, u64),
    Ref(SpecVarDecl, SpecVarDecl),
    Ternary(SpecVarDecl, SpecVarDecl, SpecOperand, SpecOperand),
    Refs(SpecVarDecl, SpecVarDecl, BinOpType, SpecVarDecl),
    RefVal(SpecVarDecl, SpecVarDecl, BinOpType, u64, bool),
    Vals(SpecVarDecl, u64, BinOpType, u64),
}

pub open spec fn field_key(p: Seq<char>, f: Seq<char>) -> Seq<char> {
    p + "."@ + f
}

/// The declaration of the assigned variable; `None` where a packet field is not in the packet
/// map.
pub open spec fn target_decl(lv: SpecLValue, map: Map<Seq<char>, SpecVarDecl>, pmap: Map<Seq<char>, Seq<char>>) -> Option<Option<SpecVarDecl>> {
    match lv {
        SpecLValue::Scalar(id) => Some(map_get(map, id)),
        SpecLValue::Array(id, _) => Some(map_get(map, id)),
        SpecLValue::Field(p, f) => match map_get(pmap, field_key(p, f)) {
            Some(k) => Some(map_get(map, k)),
            None => None,
        },
    }
}

pub open spec fn first_operand(o: SpecOperand, map: Map<Seq<char>, SpecVarDecl>, pmap: Map<Seq<char>, Seq<char>>) -> SpecFirst {
    match o {
        SpecOperand::Value(v) => SpecFirst::Val(v as u64),
        SpecOperand::LValue(SpecLValue::Scalar(id)) => match map_get(map, id) {
            Some(d) => SpecFirst::Decl(d),
            None => SpecFirst::Skip,
        },
        SpecOperand::LValue(SpecLValue::Field(p, f)) => match map_get(pmap, field_key(p, f)) {
            Some(k) => match map_get(map, k) {
                Some(d) => SpecFirst::Decl(d),
                None => SpecFirst::Fail,
            },
            None => match map_get(map, field_key(p, f)) {
                Some(d) => SpecFirst::Decl(d),
                None => SpecFirst::Skip,
            },
        },
        SpecOperand::LValue(SpecLValue::Array(_, _)) => SpecFirst::Skip,
    }
}

pub open spec fn second_operand(lv: SpecLValue, map: Map<Seq<char>, SpecVarDecl>, pmap: Map<Seq<char>, Seq<char>>) -> SpecFirst {
    match lv {
        SpecLValue::Scalar(id) => match map_get(map, id) {
            Some(d) => SpecFirst::Decl(d),
            None => SpecFirst::Skip,
        },
        SpecLValue::Field(p, f) => match map_get(pmap, field_key(p, f)) {
            Some(k) => match map_get(map, k) {
                Some(d) => SpecFirst::Decl(d),
                None => SpecFirst::Skip,
            },
            None => SpecFirst::Fail,
        },
        SpecLValue::Array(_, _) => SpecFirst::Skip,
    }
}

pub open spec fn plan_with(l: SpecVarDecl, first: SpecFirst, er: SpecExprRight, map: Map<Seq<char>, SpecVarDecl>, pmap: Map<Seq<char>, Seq<char>>) -> StmtPlan {
    match first {
        SpecFirst::Fail => StmtPlan::Fail,
        SpecFirst::Skip => StmtPlan::Skip,
        SpecFirst::Val(v1) => match er {
            SpecExprRight::BinOp(op, SpecOperand::LValue(lv2)) => match second_operand(lv2, map, pmap) {
                SpecFirst::Decl(r2) => StmtPlan::RefVal(l, r2, op, v1, false),
                SpecFirst::Fail => StmtPlan::Fail,
                _ => StmtPlan::Skip,
            },
            SpecExprRight::BinOp(op, SpecOperand::Value(v2)) =>
                if comparison_symbol(op) is Some { StmtPlan::Fail } else { StmtPlan::Vals(l, v1, op, v2 as u64) },
            SpecExprRight::Cond(_, _) => StmtPlan::Fail,
            SpecExprRight::Empty => StmtPlan::Value(l, v1),
        },
        SpecFirst::Decl(r1) => match er {
            SpecExprRight::BinOp(op, SpecOperand::LValue(lv2)) => match second_operand(lv2, map, pmap) {
                SpecFirst::Decl(r2) => StmtPlan::Refs(l, r1, op, r2),
                SpecFirst::Fail => StmtPlan::Fail,
                _ => StmtPlan::Skip,
            },
            SpecExprRight::BinOp(op, SpecOperand::Value(v2)) => StmtPlan::RefVal(l, r1, op, v2 as u64, true),
            SpecExprRight::Cond(o1, o2) =>
                if action_operand_ok(o1, map) && action_operand_ok(o2, map) { StmtPlan::Ternary(l, r1, o1, o2) }
                else { StmtPlan::Fail },
            SpecExprRight::Empty => StmtPlan::Ref(l, r1),
        },
    }
}

/// What `s` turns into, with the declarations in `map` and the packet fields in `pmap`.
pub open spec fn statement_plan(s: SpecStatement, map: Map<Seq<char>, SpecVarDecl>, pmap: Map<Seq<char>, Seq<char>>) -> StmtPlan {
    match target_decl(s.lvalue, map, pmap) {
        None => StmtPlan::Fail,
        Some(None) => StmtPlan::Skip,
        Some(Some(l)) => plan_with(l, first_operand(s.expr.op1, map, pmap), s.expr.expr_right, map, pmap),
    }
}

/// The text of a planned statement; assignments are to index 0.
pub open spec fn plan_spec(plan: StmtPlan, map: Map<Seq<char>, SpecVarDecl>, st: GenState) -> (Frag, GenState) {
    match plan {
        StmtPlan::Value(l, v) => value_assignment_spec(l, 0, v, st),
        StmtPlan::Ref(l, r) => ref_assignment_spec(l, 0, r, 0, RegisterRead::OwnAction, st),
        StmtPlan::Ternary(l, r, o1, o2) => ternary_spec(l, 0, r, o1, o2, map, st),
        StmtPlan::Refs(l, r1, op, r2) => binop_refs_spec(l, 0, r1, 0, op, r2, 0, st),
        StmtPlan::RefVal(l, r, op, v, ordering) => binop_refval_spec(l, 0, r, 0, op, v, ordering, st),
        StmtPlan::Vals(l, v1, op, v2) => binop_vals_spec(l, 0, v1, op, v2, st),
        _ => (frag_empty(), st),
    }
}

/// The text of a statement.
pub open spec fn statement_spec(s: SpecStatement, map: Map<Seq<char>, SpecVarDecl>, pmap: Map<Seq<char>, Seq<char>>, st: GenState) -> (Frag, GenState) {
    plan_spec(statement_plan(s, map, pmap), map, st)
}

enum First<'a> {
    Val(u64),
    Decl(&'a VarDecl),
    Skip,
    Fail,
}

spec fn first_view(f: First) -> SpecFirst {
    match f {
        First::Val(v) => SpecFirst::Val(v),
        First::Decl(d) => SpecFirst::Decl(d@),
        First::Skip => SpecFirst::Skip,
        First::Fail => SpecFirst::Fail,
    }
}

pub(crate) fn field_key_string(p: &String, f: &String) -> (k: String)
    ensures k@ == field_key(p@, f@),
{
    let mut k = String::new();
    k.append(p.as_str());
    k.append(".");
    k.append(f.as_str());
    k
}

fn resolve_first<'a>(o: &Operand, map: &'a DeclMap, pmap: &NameMap) -> (r: First<'a>)
    ensures first_view(r) == first_operand(o@, map@, pmap@),
{
    match o {
        Operand::Value(v) => First::Val(v.value as u64),
        Operand::LValue(LValue::Scalar(id)) => match map.get(&id.id_name) {
            Some(d) => First::Decl(d),
            None => First::Skip,
        },
        Operand::LValue(LValue::Field(p, f)) => {
            let k = field_key_string(&p.id_name, &f.id_name);
            match pmap.get(&k) {
                Some(k2) => match map.get(k2) {
                    Some(d) => First::Decl(d),
                    None => First::Fail,
                },
                None => match map.get(&k) {
                    Some(d) => First::Decl(d),
                    None => First::Skip,
                },
            }
        },
        Operand::LValue(LValue::Array(_, _)) => First::Skip,
    }
}

fn resolve_second<'a>(lv: &LValue, map: &'a DeclMap, pmap: &NameMap) -> (r: First<'a>)
    ensures first_view(r) == second_operand(lv@, map@, pmap@),
{
    match lv {
        LValue::Scalar(id) => match map.get(&id.id_name) {
            Some(d) => First::Decl(d),
            None => First::Skip,
        },
        LValue::Field(p, f) => {
            let k = field_key_string(&p.id_name, &f.id_name);
            match pmap.get(&k) {
                Some(k2) => match map.get(k2) {
                    Some(d) => First::Decl(d),
                    None => First::Skip,
                },
                None => First::Fail,
            }
        },
        LValue::Array(_, _) => First::Skip,
    }
}

fn no_text() -> (r: (String, String, String, String))
    ensures frag4(r) == frag_empty(),
{
    (String::new(), String::new(), String::new(), String::new())
}

fn resolve_target<'a>(lv: &LValue, map: &'a DeclMap, pmap: &NameMap) -> (r: Option<&'a VarDecl>)
    requires
        target_decl(lv@, map@, pmap@) is Some,
    ensures
        match r {
            Some(d) => target_decl(lv@, map@, pmap@) == Some(Some(d@)),
            None => target_decl(lv@, map@, pmap@) == Some(None::<SpecVarDecl>),
        },
{
    match lv {
        LValue::Scalar(id) => map.get(&id.id_name),
        LValue::Array(id, _) => map.get(&id.id_name),
        LValue::Field(p, f) => {
            let k = field_key_string(&p.id_name, &f.id_name);
            let k2 = pmap.get(&k).unwrap();
            map.get(k2)
        },
    }
}

fn handle_value_first(l: &VarDecl, v1: u64, er: &ExprRight, decl_map: &DeclMap, packet_map: &NameMap, st: &mut GenState)
    -> (r: (String, String, String, String))
    requires
        !(plan_with(l@, SpecFirst::Val(v1), er@, decl_map@, packet_map@) is Fail),
    ensures
        frag4(r) == plan_spec(plan_with(l@, SpecFirst::Val(v1), er@, decl_map@, packet_map@), decl_map@, *old(st)).0,
        *final(st) == plan_spec(plan_with(l@, SpecFirst::Val(v1), er@, decl_map@, packet_map@), decl_map@, *old(st)).1,
{
    match er {
        ExprRight::BinOp(op, Operand::LValue(lv2)) => match resolve_second(lv2, decl_map, packet_map) {
            First::Decl(r2) => handle_binop_refval_assignment(l, 0, r2, 0, *op, v1, decl_map, false, st),
            _ => no_text(),
        },
        ExprRight::BinOp(op, Operand::Value(v2)) => handle_binop_vals_assignment(l, 0, v1, *op, v2.value as u64, decl_map, st),
        ExprRight::Cond(_, _) => no_text(),
        ExprRight::Empty() => handle_value_assignment(l, 0, v1, st),
    }
}

fn handle_decl_first(l: &VarDecl, r1: &VarDecl, er: &ExprRight, decl_map: &DeclMap, packet_map: &NameMap, st: &mut GenState)
    -> (r: (String, String, String, String))
    requires
        !(plan_with(l@, SpecFirst::Decl(r1@), er@, decl_map@, packet_map@) is Fail),
    ensures
        frag4(r) == plan_spec(plan_with(l@, SpecFirst::Decl(r1@), er@, decl_map@, packet_map@), decl_map@, *old(st)).0,
        *final(st) == plan_spec(plan_with(l@, SpecFirst::Decl(r1@), er@, decl_map@, packet_map@), decl_map@, *old(st)).1,
{
    match er {
        ExprRight::BinOp(op, Operand::LValue(lv2)) => match resolve_second(lv2, decl_map, packet_map) {
            First::Decl(r2) => handle_binop_refs_assignment(l, 0, r1, 0, *op, r2, 0, decl_map, st),
            _ => no_text(),
        },
        ExprRight::BinOp(op, Operand::Value(v2)) =>
            handle_binop_refval_assignment(l, 0, r1, 0, *op, v2.value as u64, decl_map, true, st),
        ExprRight::Cond(o1, o2) => handle_ternary_assignment(l, 0, r1, o1, o2, decl_map, st),
        ExprRight::Empty() => handle_ref_assignment(l, 0, r1, 0, RegisterRead::OwnAction, st),
    }
}

/// The text of an assignment statement. Names are looked up in `decl_map`, packet fields
/// through `packet_map`; a statement whose names are not declared gives no text.
pub fn handle_statement(my_statement: &Statement, node_type: &DagNodeType, pre_condition: &Option<Statement>,
    decl_map: &DeclMap, import_map: &NameMap, packet_map: &NameMap, st: &mut GenState)
    -> (r: (String, String, String, String))
    requires
        !(statement_plan(my_statement@, decl_map@, packet_map@) is Fail),
    ensures
        frag4(r) == statement_spec(my_statement@, decl_map@, packet_map@, *old(st)).0,
        *final(st) == statement_spec(my_statement@, decl_map@, packet_map@, *old(st)).1,
{
    let my_lval_decl = match resolve_target(&my_statement.lvalue, decl_map, packet_map) {
        Some(d) => d,
        None => {
            return no_text();
        },
    };
    match resolve_first(&my_statement.expr.op1, decl_map, packet_map) {
        First::Val(v1) => handle_value_first(my_lval_decl, v1, &my_statement.expr.expr_right, decl_map, packet_map, st),
        First::Decl(r1) => handle_decl_first(my_lval_decl, r1, &my_statement.expr.expr_right, decl_map, packet_map, st),
        _ => no_text(),
    }
}

/// The text of a node of the graph: statements have one, other nodes none.
pub open spec fn body_trans_spec(nt: SpecDagNodeType, map: Map<Seq<char>, SpecVarDecl>, pmap: Map<Seq<char>, Seq<char>>, st: GenState) -> (Frag, GenState) {
    match nt {
        SpecDagNodeType::Stmt(s) => statement_spec(s, map, pmap, st),
        _ => (frag_empty(), st),
    }
}

pub open spec fn body_trans_ok(nt: SpecDagNodeType, map: Map<Seq<char>, SpecVarDecl>, pmap: Map<Seq<char>, Seq<char>>) -> bool {
    match nt {
        SpecDagNodeType::Stmt(s) => !(statement_plan(s, map, pmap) is Fail),
        _ => true,
    }
}

/// The control, action, table and metadata text of a node.
pub fn get_p4_body_trans(node_type: &DagNodeType, pre_condition: &Option<Statement>, decl_map: &DeclMap,
    import_map: &NameMap, packet_map: &NameMap, st: &mut GenState) -> (r: (String, String, String, String))
    requires
        body_trans_ok(node_type@, decl_map@, packet_map@),
    ensures
        frag4(r) == body_trans_spec(node_type@, decl_map@, packet_map@, *old(st)).0,
        *final(st) == body_trans_spec(node_type@, decl_map@, packet_map@, *old(st)).1,
{
    match node_type {
        DagNodeType::Stmt(s) => handle_statement(s, node_type, pre_condition, decl_map, import_map, packet_map, st),
        _ => no_text(),
    }
}

// ---------------------------------------------------------------------------------------------
// Declarations
// ---------------------------------------------------------------------------------------------

pub open spec fn empty_header() -> SpecP4Header {
    SpecP4Header { meta: Seq::empty(), meta_init: Seq::empty(), register: Seq::empty(), define: Seq::empty() }
}

/// The metadata field of a variable of `width` bits.
pub open spec fn meta_field_text(id: Seq<char>, width: u32) -> Seq<char> {
    id + " : "@ + dec(width as u64) + ";\n"@
}

/// The initialisation of a metadata field by the first initial value, where there is one.
pub open spec fn meta_init_text(d: SpecVariableDecl) -> Seq<char> {
    if d.initial_values.len() > 0 {
        "set_metadata("@ + meta_ref(d.identifier) + ","@ + dec(d.initial_values[0] as u64) + ");\n"@
    } else {
        Seq::empty()
    }
}

pub open spec fn register_text(id: Seq<char>, width: u32, size: u32) -> Seq<char> {
    "register "@ + id + " {\n"@ + tab() + " width : "@ + dec(width as u64) + "; \n"@ + tab() + " instance_count : "@
        + dec(size as u64) + ";\n}\n"@
}

/// A transient variable becomes a metadata field; transient arrays have no P4 text.
pub open spec fn transient_header(d: SpecVariableDecl) -> SpecP4Header {
    match d.var_type.var_info {
        SpecVarInfo::BitArray(w, _) => SpecP4Header { meta: meta_field_text(d.identifier, w), meta_init: meta_init_text(d), ..empty_header() },
        SpecVarInfo::Packet(_) => empty_header(),
    }
}

pub open spec fn transient_ok(d: SpecVariableDecl) -> bool {
    match d.var_type.var_info {
        SpecVarInfo::BitArray(_, n) => n == 1,
        SpecVarInfo::Packet(_) => true,
    }
}

/// A persistent variable becomes a register and a metadata field to read it into.
pub open spec fn persistent_header(d: SpecVariableDecl) -> SpecP4Header {
    match d.var_type.var_info {
        SpecVarInfo::BitArray(w, n) => SpecP4Header {
            meta: meta_field_text(d.identifier, w),
            meta_init: meta_init_text(d),
            register: register_text(d.identifier, w, n),
            define: Seq::empty(),
        },
        SpecVarInfo::Packet(_) => empty_header(),
    }
}

pub(crate) fn meta_field_line(id: &String, width: u32) -> (s: String)
    ensures s@ == meta_field_text(id@, width),
{
    let mut s = String::new();
    s.append(id.as_str());
    s.append(" : ");
    push_dec(&mut s, width as u64);
    s.append(";\n");
    s
}

pub(crate) fn meta_init_line(d: &VariableDecl) -> (s: String)
    ensures s@ == meta_init_text(d@),
{
    let mut s = String::new();
    if d.initial_values.len() > 0 {
        s.append("set_metadata(");
        push_meta_ref(&mut s, &d.identifier.id_name);
        s.append(",");
        push_dec(&mut s, d.initial_values[0].value as u64);
        s.append(");\n");
    }
    s
}

pub(crate) fn register_line(id: &String, width: u32, size: u32) -> (s: String)
    ensures s@ == register_text(id@, width, size),
{
    let mut s = String::new();
    s.append("register ");
    s.append(id.as_str());
    s.append(" {\n");
    s.append("    ");
    s.append(" width : ");
    push_dec(&mut s, width as u64);
    s.append("; \n");
    s.append("    ");
    s.append(" instance_count : ");
    push_dec(&mut s, size as u64);
    s.append(";\n}\n");
    s
}

/// The header part of a transient declaration.
pub fn handle_transient_decl(my_decl: &VariableDecl) -> (h: P4Header)
    requires
        transient_ok(my_decl@),
    ensures
        h@ == transient_header(my_decl@),
{
    let mut h = P4Header::empty();
    match &my_decl.var_type.var_info {
        VarInfo::BitArray(w, _) => {
            h.meta = meta_field_line(&my_decl.identifier.id_name, *w);
            h.meta_init = meta_init_line(my_decl);
        },
        VarInfo::Packet(_) => {},
    }
    h
}

/// The header part of a persistent declaration.
pub fn handle_persistent_decl(my_decl: &VariableDecl) -> (h: P4Header)
    ensures
        h@ == persistent_header(my_decl@),
{
    let mut h = P4Header::empty();
    match &my_decl.var_type.var_info {
        VarInfo::BitArray(w, n) => {
            h.register = register_line(&my_decl.identifier.id_name, *w, *n);
            h.meta = meta_field_line(&my_decl.identifier.id_name, *w);
            h.meta_init = meta_init_line(my_decl);
        },
        VarInfo::Packet(_) => {},
    }
    h
}

/// The header part of a node: declarations of transient and persistent variables have one.
pub open spec fn header_trans_spec(nt: SpecDagNodeType) -> SpecP4Header {
    match nt {
        SpecDagNodeType::Decl(d) => match d.var_type.type_qualifier {
            TypeQualifier::Transient => transient_header(d),
            TypeQualifier::Persistent => persistent_header(d),
            _ => empty_header(),
        },
        _ => empty_header(),
    }
}

pub open spec fn header_trans_ok(nt: SpecDagNodeType) -> bool {
    match nt {
        SpecDagNodeType::Decl(d) => d.var_type.type_qualifier == TypeQualifier::Transient ==> transient_ok(d),
        _ => true,
    }
}

/// The header part of a node.
pub fn get_p4_header_trans(node_type: &DagNodeType) -> (h: P4Header)
    requires
        header_trans_ok(node_type@),
    ensures
        h@ == header_trans_spec(node_type@),
{
    match node_type {
        DagNodeType::Decl(d) => match d.var_type.type_qualifier {
            TypeQualifier::Transient => handle_transient_decl(d),
            TypeQualifier::Persistent => handle_persistent_decl(d),
            _ => P4Header::empty(),
        },
        _ => P4Header::empty(),
    }
}

// ---------------------------------------------------------------------------------------------
// Filling in the P4 text of a graph
// ---------------------------------------------------------------------------------------------

/// The declaration of a device's metadata that an imported name stands for.
pub open spec fn device_decl(device_meta: Seq<char>) -> Option<SpecVarDecl> {
    let timestamp = SpecVarDecl {
        id: "intrinsic_metadata.ingress_global_timestamp"@,
        var_info: SpecVarInfo::BitArray(32, 1),
        type_qualifier: TypeQualifier::Field,
    };
    if device_meta == "timestamp_rx"@ || device_meta == "timestamp_ingress"@ || device_meta == "timestamp_egress"@
        || device_meta == "timestamp_tx"@ {
        Some(timestamp)
    } else if device_meta == "ingress_port"@ {
        Some(SpecVarDecl { id: "standard_metadata.ingress_port"@, var_info: SpecVarInfo::BitArray(9, 1), type_qualifier: TypeQualifier::Field })
    } else if device_meta == "egress_port"@ {
        Some(SpecVarDecl { id: "standard_metadata.egress_spec"@, var_info: SpecVarInfo::BitArray(9, 1), type_qualifier: TypeQualifier::Field })
    } else if device_meta == "packet_length"@ {
        Some(SpecVarDecl { id: "standard_metadata.packet_length"@, var_info: SpecVarInfo::BitArray(32, 1), type_qualifier: TypeQualifier::Field })
    } else if device_meta == "enq_qdepth"@ {
        Some(SpecVarDecl { id: "queueing_metadata.enq_qdepth"@, var_info: SpecVarInfo::BitArray(19, 1), type_qualifier: TypeQualifier::Field })
    } else if device_meta == "deq_qdepth"@ {
        Some(SpecVarDecl { id: "queueing_metadata.deq_qdepth"@, var_info: SpecVarInfo::BitArray(19, 1), type_qualifier: TypeQualifier::Field })
    } else {
        None
    }
}

pub(crate) fn string_is(s: &String, lit: &str) -> (b: bool)
    ensures b == (s@ == lit@),
{
    let mut t = String::new();
    t.append(lit);
    *s == t
}

fn make_decl(id: &str, width: u32) -> (d: VarDecl)
    ensures d@ == (SpecVarDecl { id: id@, var_info: SpecVarInfo::BitArray(width, 1), type_qualifier: TypeQualifier::Field }),
{
    let mut s = String::new();
    s.append(id);
    VarDecl { id: s, var_info: VarInfo::BitArray(width, 1), type_qualifier: TypeQualifier::Field }
}

fn device_var_decl(device_meta: &String) -> (r: Option<VarDecl>)
    ensures
        match r {
            Some(d) => device_decl(device_meta@) == Some(d@),
            None => device_decl(device_meta@) is None,
        },
{
    if string_is(device_meta, "timestamp_rx") || string_is(device_meta, "timestamp_ingress")
        || string_is(device_meta, "timestamp_egress") || string_is(device_meta, "timestamp_tx") {
        Some(make_decl("intrinsic_metadata.ingress_global_timestamp", 32))
    } else if string_is(device_meta, "ingress_port") {
        Some(make_decl("standard_metadata.ingress_port", 9))
    } else if string_is(device_meta, "egress_port") {
        Some(make_decl("standard_metadata.egress_spec", 9))
    } else if string_is(device_meta, "packet_length") {
        Some(make_decl("standard_metadata.packet_length", 32))
    } else if string_is(device_meta, "enq_qdepth") {
        Some(make_decl("queueing_metadata.enq_qdepth", 19))
    } else if string_is(device_meta, "deq_qdepth") {
        Some(make_decl("queueing_metadata.deq_qdepth", 19))
    } else {
        None
    }
}

/// The shape of a variable as the generator records it: packets count as empty bit arrays.
pub open spec fn bit_info(vi: SpecVarInfo) -> SpecVarInfo {
    match vi {
        SpecVarInfo::BitArray(w, n) => SpecVarInfo::BitArray(w, n),
        SpecVarInfo::Packet(_) => SpecVarInfo::BitArray(0, 0),
    }
}

pub(crate) fn bit_var_info(vi: &VarInfo) -> (r: VarInfo)
    ensures r@ == bit_info(vi@),
{
    match vi {
        VarInfo::BitArray(w, n) => VarInfo::BitArray(*w, *n),
        VarInfo::Packet(_) => VarInfo::BitArray(0, 0),
    }
}

pub open spec fn field_decl(pid: Seq<char>, f: SpecPacketField) -> SpecVarDecl {
    SpecVarDecl { id: field_key(pid, f.identifier), var_info: bit_info(f.var_type.var_info), type_qualifier: f.var_type.type_qualifier }
}

pub open spec fn add_packet_fields(m: Map<Seq<char>, SpecVarDecl>, pid: Seq<char>, fields: Seq<SpecPacketField>)
    -> Map<Seq<char>, SpecVarDecl>
    decreases fields.len(),
{
    if fields.len() == 0 {
        m
    } else {
        add_packet_fields(m, pid, fields.drop_last()).insert(field_key(pid, fields.last().identifier), field_decl(pid, fields.last()))
    }
}

/// `m` with the fields of the packets, each by the name `packet.field`.
pub open spec fn add_packets(m: Map<Seq<char>, SpecVarDecl>, packets: Seq<SpecPacket>) -> Map<Seq<char>, SpecVarDecl>
    decreases packets.len(),
{
    if packets.len() == 0 {
        m
    } else {
        add_packet_fields(add_packets(m, packets.drop_last()), packets.last().packet_id, packets.last().packet_fields)
    }
}

/// The device metadata of the imported names.
pub open spec fn import_decls(im: Map<Seq<char>, Seq<char>>) -> Map<Seq<char>, SpecVarDecl> {
    Map::new(|k: Seq<char>| im.contains_key(k), |k: Seq<char>| device_decl(im[k])->Some_0)
}

pub open spec fn node_decl(d: SpecVariableDecl) -> SpecVarDecl {
    SpecVarDecl { id: d.identifier, var_info: bit_info(d.var_type.var_info), type_qualifier: d.var_type.type_qualifier }
}

/// `m` with the variables that the nodes declare.
pub open spec fn add_node_decls(m: Map<Seq<char>, SpecVarDecl>, nodes: Seq<SpecDagNode>) -> Map<Seq<char>, SpecVarDecl>
    decreases nodes.len(),
{
    if nodes.len() == 0 {
        m
    } else {
        let m1 = add_node_decls(m, nodes.drop_last());
        match nodes.last().node_type {
            SpecDagNodeType::Decl(d) => m1.insert(d.identifier, node_decl(d)),
            _ => m1,
        }
    }
}

/// The declarations that the text of a graph is generated with: the fields of the included
/// and of the program's own packets, the imported device metadata, and the graph's own
/// declarations, each later source in place of an earlier one for the same name.
pub open spec fn fill_decl_map(im: Map<Seq<char>, Seq<char>>, pkt_tree: Seq<SpecPacket>, packets: Seq<SpecPacket>,
    nodes: Seq<SpecDagNode>) -> Map<Seq<char>, SpecVarDecl>
{
    add_node_decls(add_packets(add_packets(Map::empty(), pkt_tree), packets).union_prefer_right(import_decls(im)), nodes)
}

/// The P4 text of a node: its header, with the metadata that its statement declares, and the
/// text of its statement.
pub open spec fn node_code(nt: SpecDagNodeType, f: Frag) -> SpecP4Code {
    let h = header_trans_spec(nt);
    SpecP4Code {
        p4_header: SpecP4Header { meta: h.meta + f.metadecl, ..h },
        p4_control: f.control,
        p4_actions: f.actions,
        p4_commons: f.commons,
    }
}

/// The text of the nodes in order, the counters running on from one node to the next.
pub open spec fn fill_codes(nodes: Seq<SpecDagNode>, map: Map<Seq<char>, SpecVarDecl>, pmap: Map<Seq<char>, Seq<char>>,
    st: GenState) -> (Seq<SpecP4Code>, GenState)
    decreases nodes.len(),
{
    if nodes.len() == 0 {
        (Seq::empty(), st)
    } else {
        let (prev, st1) = fill_codes(nodes.drop_last(), map, pmap, st);
        let (f, st2) = body_trans_spec(nodes.last().node_type, map, pmap, st1);
        (prev.push(node_code(nodes.last().node_type, f)), st2)
    }
}

fn add_fields_of(map: &mut DeclMap, packet: &Packet)
    ensures final(map)@ == add_packet_fields(old(map)@, packet@.packet_id, packet@.packet_fields),
{
    let fields = &packet.packet_fields.field_vector;
    let ghost pid = packet@.packet_id;
    let ghost m0 = map@;
    let mut j: usize = 0;
    while j < fields.len()
        invariant
            j <= fields@.len(),
            pid == packet@.packet_id,
            fields == &packet.packet_fields.field_vector,
            map@ == add_packet_fields(m0, pid, packet@.packet_fields.subrange(0, j as int)),
        decreases fields@.len() - j,
    {
        let f = &fields[j];
        let key = field_key_string(&packet.packet_id.id_name, &f.identifier.id_name);
        let id = field_key_string(&packet.packet_id.id_name, &f.identifier.id_name);
        let d = VarDecl { id, var_info: bit_var_info(&f.var_type.var_info), type_qualifier: f.var_type.type_qualifier };
        map.insert(key, d);
        proof {
            let fs = packet@.packet_fields;
            assert(fs.subrange(0, j + 1).drop_last() =~= fs.subrange(0, j as int));
            assert(fs[j as int] == f@);
        }
        j = j + 1;
    }
    assert(packet@.packet_fields.subrange(0, j as int) =~= packet@.packet_fields);
}

fn add_packets_of(map: &mut DeclMap, packets: &Packets)
    ensures final(map)@ == add_packets(old(map)@, packets@),
{
    let v = &packets.packet_vector;
    let ghost m0 = map@;
    let mut i: usize = 0;
    while i < v.len()
        invariant
            i <= v@.len(),
            v == &packets.packet_vector,
            map@ == add_packets(m0, packets@.subrange(0, i as int)),
        decreases v@.len() - i,
    {
        add_fields_of(map, &v[i]);
        proof {
            let ps = packets@;
            assert(ps.subrange(0, i + 1).drop_last() =~= ps.subrange(0, i as int));
            assert(ps[i as int] == v@[i as int]@);
        }
        i = i + 1;
    }
    assert(packets@.subrange(0, i as int) =~= packets@);
}

fn add_imports_of(map: &mut DeclMap, import_map: &NameMap)
    requires
        forall|k: Seq<char>| #[trigger] import_map@.contains_key(k) ==> device_decl(import_map@[k]) is Some,
    ensures
        final(map)@ == old(map)@.union_prefer_right(import_decls(import_map@)),
{
    let ghost m0 = map@;
    let mut i: usize = 0;
    while i < import_map.entries.len()
        invariant
            i <= import_map.entries@.len(),
            forall|k: Seq<char>| #[trigger] import_map@.contains_key(k) ==> device_decl(import_map@[k]) is Some,
            map@ == m0.union_prefer_right(import_decls(import_map@).restrict(
                Set::new(|k: Seq<char>| exists|j: int| 0 <= j < i && import_map.entries@[j].key@ == k))),
        decreases import_map.entries@.len() - i,
    {
        let key = &import_map.entries[i].key;
        let ghost seen = Set::new(|k: Seq<char>| exists|j: int| 0 <= j < i && import_map.entries@[j].key@ == k);
        let ghost seen1 = Set::new(|k: Seq<char>| exists|j: int| 0 <= j < i + 1 && import_map.entries@[j].key@ == k);
        let value = import_map.get(key);
        proof {
            if value is None {
                let j = i as int;
                assert(import_map.entries@[j].key@ == key@);
                assert(crate::trans_snippet::name_lookup(import_map.entries@, key@) is Some) by {
                    lemma_name_lookup_some(import_map.entries@, j);
                }
            }
        }
        let value = value.unwrap();
        let d = device_var_decl(value);
        let d = d.unwrap();
        let k = key.clone();
        let ghost before = map@;
        map.insert(k, d);
        proof {
            assert(seen1 =~= seen.insert(key@)) by {
                assert forall|kk: Seq<char>| seen1.contains(kk) implies #[trigger] seen.insert(key@).contains(kk) by {
                    let j = choose|j: int| 0 <= j < i + 1 && import_map.entries@[j].key@ == kk;
                    if j < i {
                        assert(seen.contains(kk));
                    }
                }
                assert forall|kk: Seq<char>| seen.insert(key@).contains(kk) implies #[trigger] seen1.contains(kk) by {
                    if kk == key@ {
                        assert(import_map.entries@[i as int].key@ == kk);
                    } else {
                        let j = choose|j: int| 0 <= j < i && import_map.entries@[j].key@ == kk;
                        assert(0 <= j < i + 1 && import_map.entries@[j].key@ == kk);
                    }
                }
            }
            assert(map@ =~= m0.union_prefer_right(import_decls(import_map@).restrict(seen1)));
        }
        i = i + 1;
    }
    proof {
        let seen = Set::new(|k: Seq<char>| exists|j: int| 0 <= j < i && import_map.entries@[j].key@ == k);
        assert forall|k: Seq<char>| #[trigger] import_map@.contains_key(k) implies seen.contains(k) by {
            let j = lemma_name_lookup_index(import_map.entries@, k);
        }
        assert(import_decls(import_map@).restrict(seen) =~= import_decls(import_map@));
    }
}

proof fn lemma_name_lookup_some(entries: Seq<crate::trans_snippet::NameEntry>, j: int)
    requires 0 <= j < entries.len(),
    ensures crate::trans_snippet::name_lookup(entries, entries[j].key@) is Some,
    decreases entries.len(),
{
    if entries.last().key@ != entries[j].key@ {
        lemma_name_lookup_some(entries.drop_last(), j);
    }
}

proof fn lemma_name_lookup_index(entries: Seq<crate::trans_snippet::NameEntry>, k: Seq<char>) -> (j: int)
    requires crate::trans_snippet::name_lookup(entries, k) is Some,
    ensures 0 <= j < entries.len(), entries[j].key@ == k,
    decreases entries.len(),
{
    if entries.last().key@ == k {
        entries.len() - 1
    } else {
        lemma_name_lookup_index(entries.drop_last(), k)
    }
}

fn add_decls_of(map: &mut DeclMap, nodes: &Vec<DagNode>)
    ensures final(map)@ == add_node_decls(old(map)@, crate::grammar::vec_view(nodes@)),
{
    let ghost m0 = map@;
    let ghost nv = crate::grammar::vec_view(nodes@);
    let mut i: usize = 0;
    while i < nodes.len()
        invariant
            i <= nodes@.len(),
            nv == crate::grammar::vec_view(nodes@),
            map@ == add_node_decls(m0, nv.subrange(0, i as int)),
        decreases nodes@.len() - i,
    {
        proof {
            assert(nv.subrange(0, i + 1).drop_last() =~= nv.subrange(0, i as int));
            assert(nv[i as int] == nodes@[i as int]@);
        }
        match &nodes[i].node_type {
            DagNodeType::Decl(d) => {
                let id = d.identifier.id_name.clone();
                let vd = VarDecl { id, var_info: bit_var_info(&d.var_type.var_info), type_qualifier: d.var_type.type_qualifier };
                map.insert(d.identifier.id_name.clone(), vd);
            },
            _ => {},
        }
        i = i + 1;
    }
    assert(nv.subrange(0, i as int) =~= nv);
}

fn action_operand_known(o: &Operand, map: &DeclMap) -> (b: bool)
    ensures b == action_operand_ok(o@, map@),
{
    match o {
        Operand::LValue(lv) => {
            let mut key = String::new();
            push_lvalue_key(&mut key, lv);
            map.get(&key).is_some()
        },
        Operand::Value(_) => true,
    }
}

fn second_resolves(lv: &LValue, map: &DeclMap, pmap: &NameMap) -> (b: bool)
    ensures b == !(second_operand(lv@, map@, pmap@) is Fail),
{
    match resolve_second(lv, map, pmap) {
        First::Fail => false,
        _ => true,
    }
}

/// Whether a statement has P4 text: `statement_plan` does not fail.
pub fn statement_generable(my_statement: &Statement, decl_map: &DeclMap, packet_map: &NameMap) -> (b: bool)
    ensures b == !(statement_plan(my_statement@, decl_map@, packet_map@) is Fail),
{
    let target_known = match &my_statement.lvalue {
        LValue::Field(p, f) => packet_map.get(&field_key_string(&p.id_name, &f.id_name)).is_some(),
        _ => true,
    };
    if !target_known {
        return false;
    }
    match resolve_target(&my_statement.lvalue, decl_map, packet_map) {
        None => true,
        Some(_) => match resolve_first(&my_statement.expr.op1, decl_map, packet_map) {
            First::Fail => false,
            First::Skip => true,
            First::Val(_) => match &my_statement.expr.expr_right {
                ExprRight::BinOp(_, Operand::LValue(lv2)) => second_resolves(lv2, decl_map, packet_map),
                ExprRight::BinOp(op, Operand::Value(_)) => comparison_symbol_str(*op).is_none(),
                ExprRight::Cond(_, _) => false,
                ExprRight::Empty() => true,
            },
            First::Decl(_) => match &my_statement.expr.expr_right {
                ExprRight::BinOp(_, Operand::LValue(lv2)) => second_resolves(lv2, decl_map, packet_map),
                ExprRight::BinOp(_, Operand::Value(_)) => true,
                ExprRight::Cond(o1, o2) => action_operand_known(o1, decl_map) && action_operand_known(o2, decl_map),
                ExprRight::Empty() => true,
            },
        },
    }
}

/// Whether every imported name stands for device metadata that the generator knows.
pub fn imports_known(import_map: &NameMap) -> (b: bool)
    ensures
        b == (forall|k: Seq<char>| #[trigger] import_map@.contains_key(k) ==> device_decl(import_map@[k]) is Some),
{
    let mut i: usize = 0;
    while i < import_map.entries.len()
        invariant
            i <= import_map.entries@.len(),
            forall|j: int| 0 <= j < i ==> device_decl(import_map@[#[trigger] import_map.entries@[j].key@]) is Some,
        decreases import_map.entries@.len() - i,
    {
        let key = &import_map.entries[i].key;
        proof {
            lemma_name_lookup_some(import_map.entries@, i as int);
        }
        let value = import_map.get(key).unwrap();
        if device_var_decl(value).is_none() {
            assert(import_map@.contains_key(key@));
            return false;
        }
        i = i + 1;
    }
    proof {
        assert forall|k: Seq<char>| #[trigger] import_map@.contains_key(k) implies device_decl(import_map@[k]) is Some by {
            let j = lemma_name_lookup_index(import_map.entries@, k);
            assert(import_map.entries@[j].key@ == k);
        }
    }
    true
}

/// Whether a node's declaration has a header text.
pub fn header_generable(node_type: &DagNodeType) -> (b: bool)
    ensures b == header_trans_ok(node_type@),
{
    match node_type {
        DagNodeType::Decl(d) => match d.var_type.type_qualifier {
            TypeQualifier::Transient => match &d.var_type.var_info {
                VarInfo::BitArray(_, n) => *n == 1,
                VarInfo::Packet(_) => true,
            },
            _ => true,
        },
        _ => true,
    }
}

/// Whether `fill_p4code` accepts the graph: every imported name stands for known device
/// metadata, no transient array is declared, and every statement has P4 text with the
/// declarations of `fill_decl_map`.
pub fn fill_p4code_ok(import_map: &NameMap, packet_map: &NameMap, my_dag: &Dag, pkt_tree: &Packets, my_packets: &Packets)
    -> (b: bool)
    ensures
        b == ((forall|k: Seq<char>| #[trigger] import_map@.contains_key(k) ==> device_decl(import_map@[k]) is Some)
            && (forall|i: int| 0 <= i < my_dag@.dag_vector.len() ==> header_trans_ok(#[trigger] my_dag@.dag_vector[i].node_type))
            && (forall|i: int| 0 <= i < my_dag@.dag_vector.len() ==> body_trans_ok(#[trigger] my_dag@.dag_vector[i].node_type,
                fill_decl_map(import_map@, pkt_tree@, my_packets@, my_dag@.dag_vector), packet_map@))),
{
    if !imports_known(import_map) {
        return false;
    }
    let ghost nv = my_dag@.dag_vector;
    let mut decl_map = DeclMap::new();
    add_packets_of(&mut decl_map, pkt_tree);
    add_packets_of(&mut decl_map, my_packets);
    add_imports_of(&mut decl_map, import_map);
    add_decls_of(&mut decl_map, &my_dag.dag_vector);
    let ghost map = decl_map@;
    assert(map == fill_decl_map(import_map@, pkt_tree@, my_packets@, nv));
    let nodes = &my_dag.dag_vector;
    let mut i: usize = 0;
    while i < nodes.len()
        invariant
            i <= nodes@.len(),
            nv == crate::grammar::vec_view(nodes@),
            nv == my_dag@.dag_vector,
            decl_map@ == map,
            map == fill_decl_map(import_map@, pkt_tree@, my_packets@, nv),
            forall|j: int| 0 <= j < i ==> header_trans_ok(#[trigger] nv[j].node_type),
            forall|j: int| 0 <= j < i ==> body_trans_ok(#[trigger] nv[j].node_type, map, packet_map@),
        decreases nodes@.len() - i,
    {
        let node = &nodes[i];
        assert(nv[i as int] == node@);
        if !header_generable(&node.node_type) {
            assert(!header_trans_ok(nv[i as int].node_type));
            return false;
        }
        let body_ok = match &node.node_type {
            DagNodeType::Stmt(s) => statement_generable(s, &decl_map, packet_map),
            _ => true,
        };
        if !body_ok {
            assert(!body_trans_ok(nv[i as int].node_type, map, packet_map@));
            return false;
        }
        i = i + 1;
    }
    true
}

/// The node with its P4 text replaced.
pub open spec fn with_code(n: SpecDagNode, code: SpecP4Code) -> SpecDagNode {
    SpecDagNode { p4_code: code, ..n }
}

/// Fills in the P4 text of every node of a graph: its header part, and the text of its
/// statement, generated with the declarations of `fill_decl_map`.
pub fn fill_p4code(import_map: &NameMap, packet_map: &NameMap, my_dag: &mut Dag, pkt_tree: &Packets, my_packets: &Packets,
    st: &mut GenState)
    requires
        forall|k: Seq<char>| #[trigger] import_map@.contains_key(k) ==> device_decl(import_map@[k]) is Some,
        forall|i: int| 0 <= i < old(my_dag)@.dag_vector.len() ==> header_trans_ok(#[trigger] old(my_dag)@.dag_vector[i].node_type),
        forall|i: int| 0 <= i < old(my_dag)@.dag_vector.len() ==> body_trans_ok(#[trigger] old(my_dag)@.dag_vector[i].node_type,
            fill_decl_map(import_map@, pkt_tree@, my_packets@, old(my_dag)@.dag_vector), packet_map@),
    ensures
        final(my_dag)@.snippet_id == old(my_dag)@.snippet_id,
        final(my_dag)@.device_type == old(my_dag)@.device_type,
        final(my_dag)@.device_vector == old(my_dag)@.device_vector,
        final(my_dag)@.dag_vector.len() == old(my_dag)@.dag_vector.len(),
        forall|i: int| 0 <= i < old(my_dag)@.dag_vector.len() ==> #[trigger] final(my_dag)@.dag_vector[i] == with_code(
            old(my_dag)@.dag_vector[i],
            fill_codes(old(my_dag)@.dag_vector, fill_decl_map(import_map@, pkt_tree@, my_packets@, old(my_dag)@.dag_vector),
                packet_map@, *old(st)).0[i]),
        *final(st) == fill_codes(old(my_dag)@.dag_vector,
            fill_decl_map(import_map@, pkt_tree@, my_packets@, old(my_dag)@.dag_vector), packet_map@, *old(st)).1,
{
    let ghost old_nodes = my_dag@.dag_vector;
    let ghost st0 = *st;
    let mut decl_map = DeclMap::new();
    add_packets_of(&mut decl_map, pkt_tree);
    add_packets_of(&mut decl_map, my_packets);
    add_imports_of(&mut decl_map, import_map);
    add_decls_of(&mut decl_map, &my_dag.dag_vector);
    let ghost map = decl_map@;
    assert(map == fill_decl_map(import_map@, pkt_tree@, my_packets@, old_nodes));
    let mut nodes: Vec<DagNode> = Vec::new();
    std::mem::swap(&mut nodes, &mut my_dag.dag_vector);
    assert(crate::grammar::vec_view(nodes@) == old_nodes);
    let ghost n = nodes@.len();
    assert(n <= usize::MAX) by {
        assert(nodes.len() == n);
    }
    let mut k: usize = 0;
    while nodes.len() > 0
        invariant
            k + nodes@.len() == n,
            n == old_nodes.len(),
            n <= usize::MAX,
            decl_map@ == map,
            map == fill_decl_map(import_map@, pkt_tree@, my_packets@, old_nodes),
            forall|i: int| 0 <= i < nodes@.len() ==> #[trigger] nodes@[i]@ == old_nodes[k + i],
            forall|i: int| 0 <= i < old_nodes.len() ==> header_trans_ok(#[trigger] old_nodes[i].node_type),
            forall|i: int| 0 <= i < old_nodes.len() ==> body_trans_ok(#[trigger] old_nodes[i].node_type, map, packet_map@),
            my_dag.dag_vector@.len() == k,
            forall|i: int| 0 <= i < k ==> #[trigger] my_dag.dag_vector@[i]@ == with_code(old_nodes[i],
                fill_codes(old_nodes.subrange(0, k as int), map, packet_map@, st0).0[i]),
            *st == fill_codes(old_nodes.subrange(0, k as int), map, packet_map@, st0).1,
            fill_codes(old_nodes.subrange(0, k as int), map, packet_map@, st0).0.len() == k,
            my_dag@.snippet_id == old(my_dag)@.snippet_id,
            my_dag@.device_type == old(my_dag)@.device_type,
            my_dag@.device_vector == old(my_dag)@.device_vector,
        decreases nodes@.len(),
    {
        let ghost before = nodes@;
        let node = nodes.remove(0);
        assert(node@ == old_nodes[k as int]);
        let ghost prev = fill_codes(old_nodes.subrange(0, k as int), map, packet_map@, st0);
        let mut header = get_p4_header_trans(&node.node_type);
        let (a, b, c, d) = get_p4_body_trans(&node.node_type, &node.pre_condition, &decl_map, import_map, packet_map, st);
        header.meta.append(d.as_str());
        let code = P4Code { p4_header: header, p4_control: a, p4_actions: b, p4_commons: c };
        let DagNode { node_type, p4_code: _, next_nodes, prev_nodes, pre_condition } = node;
        let new_node = DagNode { node_type, p4_code: code, next_nodes, prev_nodes, pre_condition };
        my_dag.dag_vector.push(new_node);
        proof {
            let sub1 = old_nodes.subrange(0, k + 1);
            assert(sub1.drop_last() =~= old_nodes.subrange(0, k as int));
            assert(sub1.last() == old_nodes[k as int]);
            let now = fill_codes(sub1, map, packet_map@, st0);
            assert(now.0 == prev.0.push(node_code(old_nodes[k as int].node_type, frag4((a, b, c, d)))));
            assert forall|i: int| 0 <= i < nodes@.len() implies #[trigger] nodes@[i]@ == old_nodes[k + 1 + i] by {
                assert(nodes@[i] == before[i + 1]);
            }
        }
        k = k + 1;
    }
    assert(old_nodes.subrange(0, k as int) =~= old_nodes);
}

} // verus!
