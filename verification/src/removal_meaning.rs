use vstd::prelude::*;
use crate::grammar::{
    BinOpType, SpecOperand, SpecLValue, SpecExpr, SpecExprRight, SpecStatement, SpecIfBlock, SpecSnippet, SpecVarType,
};
use crate::bmv2_gen::field_key;
use crate::token::SpecToken;
use crate::parser::{spec_ifblock, spec_ifblocks, spec_snippet, block_kind};
use crate::snippet_dag::{if_var_name, tmp_var_name, removal, removed_blocks, removed_stmts, removed_stmt, Removed};

verus! {

// ---------------------------------------------------------------------------------------------
// What a snippet's statements compute
// ---------------------------------------------------------------------------------------------

/// A storage location: a variable or packet field by name, or an element of an array.
pub enum Loc {
    Var(Seq<char>),
    Elem(Seq<char>, int),
}

/// The value of an operand in a store. Values are unbounded integers: bit widths are not
/// modelled.
pub open spec fn operand_value(o: SpecOperand, env: spec_fn(Loc) -> int) -> int
    decreases o,
{
    match o {
        SpecOperand::Value(v) => v as int,
        SpecOperand::LValue(l) => env(lvalue_loc(l, env)),
    }
}

/// The location that an lvalue names in a store (an array index is evaluated there).
pub open spec fn lvalue_loc(l: SpecLValue, env: spec_fn(Loc) -> int) -> Loc
    decreases l,
{
    match l {
        SpecLValue::Scalar(x) => Loc::Var(x),
        SpecLValue::Field(p, f) => Loc::Var(field_key(p, f)),
        SpecLValue::Array(a, i) => Loc::Elem(a, operand_value(*i, env)),
    }
}

/// The value of an expression, with `ops` giving the meaning of the binary operators; a
/// ternary picks its first alternative where its condition is not zero.
pub open spec fn expr_value(e: SpecExpr, env: spec_fn(Loc) -> int, ops: spec_fn(BinOpType, int, int) -> int) -> int {
    let a = operand_value(e.op1, env);
    match e.expr_right {
        SpecExprRight::Empty => a,
        SpecExprRight::BinOp(op, o) => ops(op, a, operand_value(o, env)),
        SpecExprRight::Cond(x, y) => if a != 0 { operand_value(x, env) } else { operand_value(y, env) },
    }
}

pub open spec fn assign(env: spec_fn(Loc) -> int, at: Loc, v: int) -> spec_fn(Loc) -> int {
    |l: Loc| if l == at { v } else { env(l) }
}

pub open spec fn run_stmt(s: SpecStatement, env: spec_fn(Loc) -> int, ops: spec_fn(BinOpType, int, int) -> int) -> spec_fn(Loc) -> int {
    assign(env, lvalue_loc(s.lvalue, env), expr_value(s.expr, env, ops))
}

/// The store after running the statements in order.
pub open spec fn run_stmts(ss: Seq<SpecStatement>, env: spec_fn(Loc) -> int, ops: spec_fn(BinOpType, int, int) -> int) -> spec_fn(Loc) -> int
    decreases ss.len(),
{
    if ss.len() == 0 {
        env
    } else {
        run_stmt(ss.last(), run_stmts(ss.drop_last(), env, ops), ops)
    }
}

/// One block of a snippet, in a store and with the condition of the last `if` block: an `if`
/// block runs its statements where its condition is not zero and records the condition; an
/// `else` block runs its statements where the recorded condition is zero; other statements
/// always run.
pub open spec fn run_block(b: SpecIfBlock, st: (spec_fn(Loc) -> int, int), ops: spec_fn(BinOpType, int, int) -> int)
    -> (spec_fn(Loc) -> int, int)
{
    if b.condtype == 1 {
        let c = expr_value(b.condition, st.0, ops);
        (if c != 0 { run_stmts(b.statements, st.0, ops) } else { st.0 }, c)
    } else if b.condtype == 2 {
        (if st.1 == 0 { run_stmts(b.statements, st.0, ops) } else { st.0 }, st.1)
    } else {
        (run_stmts(b.statements, st.0, ops), st.1)
    }
}

pub open spec fn run_blocks(bs: Seq<SpecIfBlock>, env: spec_fn(Loc) -> int, ops: spec_fn(BinOpType, int, int) -> int)
    -> (spec_fn(Loc) -> int, int)
    decreases bs.len(),
{
    if bs.len() == 0 {
        (env, 0)
    } else {
        run_block(bs.last(), run_blocks(bs.drop_last(), env, ops), ops)
    }
}

// ---------------------------------------------------------------------------------------------
// The names that branch removal introduces, and the program's own locations
// ---------------------------------------------------------------------------------------------

/// A name of the form that branch removal gives its condition bits and temporaries.
pub open spec fn generated(n: Seq<char>) -> bool {
    (exists|id: u64| n == #[trigger] if_var_name(id)) || (exists|c: nat, id: u64| n == #[trigger] tmp_var_name(c, id))
}

pub open spec fn user_loc(l: Loc) -> bool {
    match l {
        Loc::Var(n) => !generated(n),
        Loc::Elem(_, _) => true,
    }
}

/// Two stores hold the same values at every location that is not a generated name.
pub open spec fn agree(e1: spec_fn(Loc) -> int, e2: spec_fn(Loc) -> int) -> bool {
    forall|l: Loc| user_loc(l) ==> #[trigger] e1(l) == e2(l)
}

/// The operand names no generated variable.
pub open spec fn operand_clean(o: SpecOperand) -> bool
    decreases o,
{
    match o {
        SpecOperand::Value(_) => true,
        SpecOperand::LValue(l) => lvalue_clean(l),
    }
}

pub open spec fn lvalue_clean(l: SpecLValue) -> bool
    decreases l,
{
    match l {
        SpecLValue::Scalar(x) => !generated(x),
        SpecLValue::Field(p, f) => !generated(field_key(p, f)),
        SpecLValue::Array(_, i) => operand_clean(*i),
    }
}

pub open spec fn expr_clean(e: SpecExpr) -> bool {
    &&& operand_clean(e.op1)
    &&& match e.expr_right {
        SpecExprRight::Empty => true,
        SpecExprRight::BinOp(_, o) => operand_clean(o),
        SpecExprRight::Cond(x, y) => operand_clean(x) && operand_clean(y),
    }
}

pub open spec fn stmt_clean(s: SpecStatement) -> bool {
    lvalue_clean(s.lvalue) && expr_clean(s.expr)
}

pub open spec fn stmts_clean(ss: Seq<SpecStatement>) -> bool {
    forall|m: int| 0 <= m < ss.len() ==> stmt_clean(#[trigger] ss[m])
}

pub open spec fn block_clean(b: SpecIfBlock) -> bool {
    (b.condtype == 1 ==> expr_clean(b.condition)) && stmts_clean(b.statements)
}

/// Every block is an `if`, an `else` or a run of statements, and every `else` block follows the
/// `if` block that it belongs to, whose number is one less.
pub open spec fn blocks_paired(bs: Seq<SpecIfBlock>) -> bool {
    forall|k: int| 0 <= k < bs.len() ==> {
        &&& 1 <= (#[trigger] bs[k]).condtype <= 3
        &&& bs[k].condtype == 2 ==> k > 0 && bs[k - 1].condtype == 1 && bs[k - 1].id + 1 == bs[k].id
    }
}

// ---------------------------------------------------------------------------------------------
// Proof
// ---------------------------------------------------------------------------------------------

proof fn lemma_lvalue_agree(l: SpecLValue, e1: spec_fn(Loc) -> int, e2: spec_fn(Loc) -> int)
    requires
        agree(e1, e2),
        lvalue_clean(l),
    ensures
        lvalue_loc(l, e1) == lvalue_loc(l, e2),
        user_loc(lvalue_loc(l, e1)),
    decreases l,
{
    match l {
        SpecLValue::Array(_, i) => lemma_operand_agree(*i, e1, e2),
        _ => {},
    }
}

proof fn lemma_operand_agree(o: SpecOperand, e1: spec_fn(Loc) -> int, e2: spec_fn(Loc) -> int)
    requires
        agree(e1, e2),
        operand_clean(o),
    ensures
        operand_value(o, e1) == operand_value(o, e2),
    decreases o,
{
    match o {
        SpecOperand::LValue(l) => {
            lemma_lvalue_agree(l, e1, e2);
            let at = lvalue_loc(l, e1);
            assert(e1(at) == e2(at));
        },
        _ => {},
    }
}

proof fn lemma_expr_agree(e: SpecExpr, e1: spec_fn(Loc) -> int, e2: spec_fn(Loc) -> int, ops: spec_fn(BinOpType, int, int) -> int)
    requires
        agree(e1, e2),
        expr_clean(e),
    ensures
        expr_value(e, e1, ops) == expr_value(e, e2, ops),
{
    lemma_operand_agree(e.op1, e1, e2);
    match e.expr_right {
        SpecExprRight::BinOp(_, o) => lemma_operand_agree(o, e1, e2),
        SpecExprRight::Cond(x, y) => {
            lemma_operand_agree(x, e1, e2);
            lemma_operand_agree(y, e1, e2);
        },
        _ => {},
    }
}

proof fn lemma_generated_names(c: nat, id: u64, k: u64)
    ensures
        generated(if_var_name(k)),
        generated(tmp_var_name(c, id)),
        tmp_var_name(c, id) != if_var_name(k),
{
    assert(generated(if_var_name(k)));
    assert(generated(tmp_var_name(c, id)));
    reveal_strlit("tmp_");
    reveal_strlit("if_block_tmp_");
    assert(tmp_var_name(c, id)[0] == 't');
    assert(if_var_name(k)[0] == 'i');
}

/// Writing a generated name keeps two stores in agreement.
proof fn lemma_assign_generated(src: spec_fn(Loc) -> int, t: spec_fn(Loc) -> int, n: Seq<char>, v: int)
    requires
        agree(src, t),
        generated(n),
    ensures
        agree(src, assign(t, Loc::Var(n), v)),
{
    assert forall|l: Loc| user_loc(l) implies #[trigger] src(l) == assign(t, Loc::Var(n), v)(l) by {
        assert(src(l) == t(l));
    }
}

/// Writing the same value at the same program location in both stores keeps them in agreement.
proof fn lemma_assign_both(src: spec_fn(Loc) -> int, t: spec_fn(Loc) -> int, at: Loc, v: int)
    requires
        agree(src, t),
    ensures
        agree(assign(src, at, v), assign(t, at, v)),
{
    assert forall|l: Loc| user_loc(l) implies #[trigger] assign(src, at, v)(l) == assign(t, at, v)(l) by {
        assert(src(l) == t(l));
    }
}

/// Writing back the value that a program location holds keeps two stores in agreement.
proof fn lemma_assign_same(src: spec_fn(Loc) -> int, t: spec_fn(Loc) -> int, at: Loc)
    requires
        agree(src, t),
    ensures
        agree(src, assign(t, at, t(at))),
{
    assert forall|l: Loc| user_loc(l) implies #[trigger] src(l) == assign(t, at, t(at))(l) by {
        assert(src(l) == t(l));
    }
}

proof fn lemma_run_push(ss: Seq<SpecStatement>, s: SpecStatement, env: spec_fn(Loc) -> int, ops: spec_fn(BinOpType, int, int) -> int)
    ensures
        run_stmts(ss.push(s), env, ops) == run_stmt(s, run_stmts(ss, env, ops), ops),
{
    assert(ss.push(s).drop_last() =~= ss);
}

/// The condition bit that block `id` tests.
pub open spec fn cond_var(id: u64, condtype: u64) -> Seq<char> {
    if condtype == 1 {
        if_var_name(id)
    } else {
        if_var_name((id - 1) as u64)
    }
}

/// A conditional block runs its statements: an `if` block where the condition is not zero, an
/// `else` block where it is zero.
pub open spec fn active(condtype: u64, c: int) -> bool {
    if condtype == 1 {
        c != 0
    } else {
        c == 0
    }
}

/// The ternary that replaces an assignment, with its condition bit set to `c`, has the
/// assignment's effect where the block is active and none otherwise.
proof fn lemma_select(id: u64, condtype: u64, lv: SpecLValue, new_val: SpecOperand, v: int,
    src: spec_fn(Loc) -> int, t: spec_fn(Loc) -> int, c: int, ops: spec_fn(BinOpType, int, int) -> int)
    requires
        condtype == 1 || (condtype == 2 && id >= 1),
        agree(src, t),
        lvalue_clean(lv),
        t(Loc::Var(cond_var(id, condtype))) == c,
        operand_value(new_val, t) == v,
    ensures
        ({
            let s2 = SpecStatement { lvalue: lv, expr: crate::snippet_dag::select_expr(id, condtype, new_val, SpecOperand::LValue(lv)) };
            &&& agree(if active(condtype, c) { assign(src, lvalue_loc(lv, src), v) } else { src }, run_stmt(s2, t, ops))
            &&& run_stmt(s2, t, ops)(Loc::Var(cond_var(id, condtype))) == c
        }),
{
    let s2 = SpecStatement { lvalue: lv, expr: crate::snippet_dag::select_expr(id, condtype, new_val, SpecOperand::LValue(lv)) };
    lemma_lvalue_agree(lv, src, t);
    let at = lvalue_loc(lv, t);
    assert(src(at) == t(at));
    let cv = cond_var(id, condtype);
    lemma_generated_names(0, 0, if condtype == 1 { id } else { (id - 1) as u64 });
    assert(generated(cv));
    assert(at != Loc::Var(cv));
    let e = crate::snippet_dag::select_expr(id, condtype, new_val, SpecOperand::LValue(lv));
    assert(operand_value(e.op1, t) == c);
    assert(operand_value(SpecOperand::LValue(lv), t) == t(at));
    if active(condtype, c) {
        assert(expr_value(e, t, ops) == v);
        lemma_assign_both(src, t, at, v);
    } else {
        assert(expr_value(e, t, ops) == t(at));
        lemma_assign_same(src, t, at);
    }
}

/// One statement of a conditional block.
proof fn lemma_cond_stmt(id: u64, condtype: u64, s: SpecStatement, acc: Removed, syms: Map<Seq<char>, SpecVarType>,
    pmap: Map<Seq<char>, Seq<char>>, fmap: Map<Seq<char>, SpecVarType>, ops: spec_fn(BinOpType, int, int) -> int,
    init: spec_fn(Loc) -> int, src: spec_fn(Loc) -> int, c: int)
    requires
        condtype == 1 || (condtype == 2 && id >= 1),
        stmt_clean(s),
        agree(src, run_stmts(acc.stmts, init, ops)),
        run_stmts(acc.stmts, init, ops)(Loc::Var(cond_var(id, condtype))) == c,
    ensures
        agree(if active(condtype, c) { run_stmt(s, src, ops) } else { src },
            run_stmts(removed_stmt(id, condtype, s, acc, syms, pmap, fmap).stmts, init, ops)),
        run_stmts(removed_stmt(id, condtype, s, acc, syms, pmap, fmap).stmts, init, ops)(Loc::Var(cond_var(id, condtype))) == c,
{
    let t = run_stmts(acc.stmts, init, ops);
    let r = removed_stmt(id, condtype, s, acc, syms, pmap, fmap);
    lemma_expr_agree(s.expr, src, t, ops);
    let v = expr_value(s.expr, src, ops);
    if s.expr.expr_right is Empty {
        let s2 = SpecStatement {
            lvalue: s.lvalue,
            expr: crate::snippet_dag::select_expr(id, condtype, s.expr.op1, SpecOperand::LValue(s.lvalue)),
        };
        lemma_run_push(acc.stmts, s2, init, ops);
        lemma_operand_agree(s.expr.op1, src, t);
        lemma_select(id, condtype, s.lvalue, s.expr.op1, v, src, t, c, ops);
    } else {
        let tmp = tmp_var_name(acc.count, id);
        let s1 = SpecStatement { lvalue: SpecLValue::Scalar(tmp), expr: s.expr };
        let s2 = SpecStatement {
            lvalue: s.lvalue,
            expr: crate::snippet_dag::select_expr(id, condtype, crate::snippet_dag::scalar_operand(tmp), SpecOperand::LValue(s.lvalue)),
        };
        lemma_run_push(acc.stmts, s1, init, ops);
        lemma_run_push(acc.stmts.push(s1), s2, init, ops);
        let t1 = run_stmt(s1, t, ops);
        lemma_generated_names(acc.count, id, if condtype == 1 { id } else { (id - 1) as u64 });
        lemma_assign_generated(src, t, tmp, expr_value(s.expr, t, ops));
        assert(t1(Loc::Var(cond_var(id, condtype))) == c);
        assert(operand_value(crate::snippet_dag::scalar_operand(tmp), t1) == v);
        lemma_select(id, condtype, s.lvalue, crate::snippet_dag::scalar_operand(tmp), v, src, t1, c, ops);
    }
}

/// The statements of a conditional block.
proof fn lemma_cond_stmts(id: u64, condtype: u64, ss: Seq<SpecStatement>, start: Removed, syms: Map<Seq<char>, SpecVarType>,
    pmap: Map<Seq<char>, Seq<char>>, fmap: Map<Seq<char>, SpecVarType>, ops: spec_fn(BinOpType, int, int) -> int,
    init: spec_fn(Loc) -> int, src: spec_fn(Loc) -> int, c: int)
    requires
        condtype == 1 || (condtype == 2 && id >= 1),
        stmts_clean(ss),
        agree(src, run_stmts(start.stmts, init, ops)),
        run_stmts(start.stmts, init, ops)(Loc::Var(cond_var(id, condtype))) == c,
    ensures
        agree(if active(condtype, c) { run_stmts(ss, src, ops) } else { src },
            run_stmts(removed_stmts(id, condtype, ss, start, syms, pmap, fmap).stmts, init, ops)),
        run_stmts(removed_stmts(id, condtype, ss, start, syms, pmap, fmap).stmts, init, ops)(Loc::Var(cond_var(id, condtype))) == c,
    decreases ss.len(),
{
    if ss.len() > 0 {
        let pre = ss.drop_last();
        assert(stmts_clean(pre)) by {
            assert forall|m: int| 0 <= m < pre.len() implies stmt_clean(#[trigger] pre[m]) by {
                assert(pre[m] == ss[m]);
            }
        }
        lemma_cond_stmts(id, condtype, pre, start, syms, pmap, fmap, ops, init, src, c);
        let acc = removed_stmts(id, condtype, pre, start, syms, pmap, fmap);
        let mid = if active(condtype, c) { run_stmts(pre, src, ops) } else { src };
        assert(stmt_clean(ss[ss.len() - 1]));
        lemma_cond_stmt(id, condtype, ss.last(), acc, syms, pmap, fmap, ops, init, mid, c);
    }
}

/// Statements that run unconditionally.
proof fn lemma_plain_stmts(ss: Seq<SpecStatement>, acc: Seq<SpecStatement>, ops: spec_fn(BinOpType, int, int) -> int,
    init: spec_fn(Loc) -> int, src: spec_fn(Loc) -> int)
    requires
        stmts_clean(ss),
        agree(src, run_stmts(acc, init, ops)),
    ensures
        agree(run_stmts(ss, src, ops), run_stmts(acc + ss, init, ops)),
    decreases ss.len(),
{
    if ss.len() > 0 {
        let pre = ss.drop_last();
        assert(stmts_clean(pre)) by {
            assert forall|m: int| 0 <= m < pre.len() implies stmt_clean(#[trigger] pre[m]) by {
                assert(pre[m] == ss[m]);
            }
        }
        lemma_plain_stmts(pre, acc, ops, init, src);
        assert((acc + ss).drop_last() =~= acc + pre);
        let s = ss.last();
        assert(stmt_clean(ss[ss.len() - 1]));
        let a = run_stmts(pre, src, ops);
        let b = run_stmts(acc + pre, init, ops);
        lemma_lvalue_agree(s.lvalue, a, b);
        lemma_expr_agree(s.expr, a, b, ops);
        lemma_assign_both(a, b, lvalue_loc(s.lvalue, a), expr_value(s.expr, a, ops));
    }
}

proof fn lemma_removed_blocks(bs: Seq<SpecIfBlock>, syms: Map<Seq<char>, SpecVarType>, pmap: Map<Seq<char>, Seq<char>>,
    fmap: Map<Seq<char>, SpecVarType>, ops: spec_fn(BinOpType, int, int) -> int, init: spec_fn(Loc) -> int)
    requires
        blocks_paired(bs),
        forall|k: int| 0 <= k < bs.len() ==> block_clean(#[trigger] bs[k]),
    ensures
        agree(run_blocks(bs, init, ops).0, run_stmts(removed_blocks(bs, syms, pmap, fmap).stmts, init, ops)),
        bs.len() > 0 && bs.last().condtype == 1 ==> run_stmts(removed_blocks(bs, syms, pmap, fmap).stmts, init, ops)(
            Loc::Var(if_var_name(bs.last().id))) == run_blocks(bs, init, ops).1,
    decreases bs.len(),
{
    if bs.len() == 0 {
        assert forall|l: Loc| user_loc(l) implies #[trigger] init(l) == init(l) by {}
    } else {
        let pre = bs.drop_last();
        assert(blocks_paired(pre)) by {
            assert forall|k: int| 0 <= k < pre.len() implies {
                &&& 1 <= (#[trigger] pre[k]).condtype <= 3
                &&& pre[k].condtype == 2 ==> k > 0 && pre[k - 1].condtype == 1 && pre[k - 1].id + 1 == pre[k].id
            } by {
                assert(pre[k] == bs[k]);
                assert(bs[k].condtype == 2 ==> pre[k - 1] == bs[k - 1]);
            }
        }
        assert forall|k: int| 0 <= k < pre.len() implies block_clean(#[trigger] pre[k]) by {
            assert(pre[k] == bs[k]);
        }
        lemma_removed_blocks(pre, syms, pmap, fmap, ops, init);
        let acc = removed_blocks(pre, syms, pmap, fmap);
        let (src, last) = run_blocks(pre, init, ops);
        let t = run_stmts(acc.stmts, init, ops);
        let b = bs.last();
        assert(b == bs[bs.len() - 1]);
        assert(block_clean(b));
        assert(1 <= b.condtype <= 3);
        if b.condtype == 3 {
            lemma_plain_stmts(b.statements, acc.stmts, ops, init, src);
        } else if b.condtype == 1 {
            let ifv = if_var_name(b.id);
            let st = SpecStatement { lvalue: SpecLValue::Scalar(ifv), expr: b.condition };
            let start = Removed {
                decls: acc.decls.push(crate::snippet_dag::transient_decl(ifv, crate::grammar::SpecVarInfo::BitArray(1, 1))),
                stmts: acc.stmts.push(st),
                count: acc.count,
            };
            lemma_run_push(acc.stmts, st, init, ops);
            lemma_expr_agree(b.condition, src, t, ops);
            let c = expr_value(b.condition, src, ops);
            lemma_generated_names(0, 0, b.id);
            lemma_assign_generated(src, t, ifv, expr_value(b.condition, t, ops));
            lemma_cond_stmts(b.id, 1, b.statements, start, syms, pmap, fmap, ops, init, src, c);
        } else {
            let k = bs.len() - 1;
            assert(bs[k].condtype == 2);
            let p = bs[k - 1];
            assert(p == pre.last());
            assert(p.condtype == 1 && p.id + 1 == b.id);
            assert((b.id - 1) as u64 == p.id);
            lemma_cond_stmts(b.id, 2, b.statements, acc, syms, pmap, fmap, ops, init, src, last);
        }
    }
}

/// Branch removal keeps the meaning of a snippet: for every meaning of the binary operators and
/// every starting store, running the straight-line statements that branch removal produces
/// leaves every location of the program with the value that running its `if` and `else` blocks
/// leaves there. This holds where the program uses none of the names that branch removal
/// generates, and every `else` block follows the `if` block it belongs to.
pub proof fn lemma_branch_removal_meaning(sn: SpecSnippet, pmap: Map<Seq<char>, Seq<char>>, fmap: Map<Seq<char>, SpecVarType>,
    ops: spec_fn(BinOpType, int, int) -> int, env: spec_fn(Loc) -> int)
    requires
        blocks_paired(sn.ifblocks),
        forall|k: int| 0 <= k < sn.ifblocks.len() ==> block_clean(#[trigger] sn.ifblocks[k]),
    ensures
        agree(run_blocks(sn.ifblocks, env, ops).0, run_stmts(removal(sn, pmap, fmap).stmts, env, ops)),
{
    lemma_removed_blocks(sn.ifblocks, crate::snippet_dag::decl_types(sn.variable_decls), pmap, fmap, ops, env);
}


// ---------------------------------------------------------------------------------------------
// Snippets as the parser reads them
// ---------------------------------------------------------------------------------------------

/// Every `else` block directly follows an `if` block.
pub open spec fn else_follows_if(bs: Seq<SpecIfBlock>) -> bool {
    forall|k: int| 0 <= k < bs.len() && (#[trigger] bs[k]).condtype == 2 ==> k > 0 && bs[k - 1].condtype == 1
}

proof fn lemma_ifblock_header(ts: Seq<SpecToken>, pos: int, id: u64, condtype: u64)
    ensures
        spec_ifblock(ts, pos, id, condtype) is Ok ==> {
            &&& spec_ifblock(ts, pos, id, condtype)->Ok_0.0.id == id
            &&& spec_ifblock(ts, pos, id, condtype)->Ok_0.0.condtype == condtype
        },
{
}

/// The parser numbers the blocks of a snippet body in order, from one above `ifid`, and each
/// is an `if`, an `else` or a run of statements.
pub proof fn lemma_ifblocks_numbered(ts: Seq<SpecToken>, pos: int, ifid: int)
    requires
        0 <= ifid,
        ifid + ts.len() - pos <= u64::MAX,
    ensures
        spec_ifblocks(ts, pos, ifid) is Ok ==> {
            let bs = spec_ifblocks(ts, pos, ifid)->Ok_0.0;
            forall|k: int| 0 <= k < bs.len() ==> {
                &&& (#[trigger] bs[k]).id == ifid + k + 1
                &&& 1 <= bs[k].condtype <= 3
            }
        },
    decreases ts.len() - pos,
{
    if 0 <= pos < ts.len() {
        let kind = block_kind(ts[pos]);
        if kind != 0 {
            lemma_ifblock_header(ts, pos, (ifid + 1) as u64, kind);
            match spec_ifblock(ts, pos, (ifid + 1) as u64, kind) {
                Ok((b, p)) => {
                    if pos < p <= ts.len() {
                        lemma_ifblocks_numbered(ts, p, ifid + 1);
                        if spec_ifblocks(ts, pos, ifid) is Ok {
                            let bs = spec_ifblocks(ts, pos, ifid)->Ok_0.0;
                            let rest = spec_ifblocks(ts, p, ifid + 1)->Ok_0.0;
                            assert(bs == seq![b] + rest);
                            assert forall|k: int| 0 <= k < bs.len() implies {
                                &&& (#[trigger] bs[k]).id == ifid + k + 1
                                &&& 1 <= bs[k].condtype <= 3
                            } by {
                                if k > 0 {
                                    assert(bs[k] == rest[k - 1]);
                                }
                            }
                        }
                    }
                },
                Err(_) => {},
            }
        }
    }
}

/// In a snippet as the parser reads it, an `else` block that directly follows an `if` block is
/// numbered one above it.
pub proof fn lemma_parsed_blocks_paired(ts: Seq<SpecToken>, pos: int)
    requires
        ts.len() <= u64::MAX,
        spec_snippet(ts, pos) is Ok,
        else_follows_if(spec_snippet(ts, pos)->Ok_0.0.ifblocks),
    ensures
        blocks_paired(spec_snippet(ts, pos)->Ok_0.0.ifblocks),
{
    let bs = spec_snippet(ts, pos)->Ok_0.0.ifblocks;
    let p6 = choose|p6: int| spec_ifblocks(ts, p6, 0) is Ok && spec_ifblocks(ts, p6, 0)->Ok_0.0 == bs;
    assert(exists|p6: int| spec_ifblocks(ts, p6, 0) is Ok && spec_ifblocks(ts, p6, 0)->Ok_0.0 == bs);
    assert(spec_ifblocks(ts, p6, 0) is Ok ==> 0 <= p6);
    lemma_ifblocks_numbered(ts, p6, 0);
    assert forall|k: int| 0 <= k < bs.len() implies {
        &&& 1 <= (#[trigger] bs[k]).condtype <= 3
        &&& bs[k].condtype == 2 ==> k > 0 && bs[k - 1].condtype == 1 && bs[k - 1].id + 1 == bs[k].id
    } by {
        if bs[k].condtype == 2 {
            assert(k > 0);
            assert(bs[k - 1].id == k);
        }
    }
}

/// Branch removal keeps the meaning of every snippet that the parser reads in which each `else`
/// block directly follows an `if` block and no name that branch removal generates is used (see
/// `lemma_branch_removal_meaning`).
pub proof fn lemma_parsed_branch_removal_meaning(ts: Seq<SpecToken>, pos: int, pmap: Map<Seq<char>, Seq<char>>,
    fmap: Map<Seq<char>, SpecVarType>, ops: spec_fn(BinOpType, int, int) -> int, env: spec_fn(Loc) -> int)
    requires
        ts.len() <= u64::MAX,
        spec_snippet(ts, pos) is Ok,
        else_follows_if(spec_snippet(ts, pos)->Ok_0.0.ifblocks),
        forall|k: int| 0 <= k < spec_snippet(ts, pos)->Ok_0.0.ifblocks.len()
            ==> block_clean(#[trigger] spec_snippet(ts, pos)->Ok_0.0.ifblocks[k]),
    ensures
        ({
            let sn = spec_snippet(ts, pos)->Ok_0.0;
            agree(run_blocks(sn.ifblocks, env, ops).0, run_stmts(removal(sn, pmap, fmap).stmts, env, ops))
        }),
{
    lemma_parsed_blocks_paired(ts, pos);
    lemma_branch_removal_meaning(spec_snippet(ts, pos)->Ok_0.0, pmap, fmap, ops, env);
}

} // verus!
