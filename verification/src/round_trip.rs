use vstd::prelude::*;
use crate::token::SpecToken;
use crate::grammar::{
    TypeQualifier, SpecProg, SpecPacket, SpecPacketField, SpecSnippet, SpecIfBlock, SpecConnection,
    SpecVarInfo, SpecVarType, SpecVariableDecl, SpecStatement, SpecExpr, SpecExprRight, SpecOperand,
    SpecLValue,
};
use crate::parsing::{SResult, ParseError, many, token_at};
use crate::lexer::{LexError, lex, lexable, lemma_lex_render};
use crate::parser::{
    spec_operand, spec_lvalue, spec_binop, spec_expr_right, spec_expr, spec_statement, spec_statements,
    spec_ifblock, spec_ifblocks, block_kind, block_id, dummy_condition, spec_type_annotation,
    spec_value_comma, spec_initial_values, initial_values_error, spec_variable_decl, spec_globals,
    starts_decl, spec_packet_field, spec_packet, spec_packets, spec_device, spec_snippet,
    spec_snippets, spec_variable_pair, spec_variable_pairs, spec_connection, spec_connections,
    spec_prog,
};
use crate::pretty_printer::{
    flat, binop_token, operand_tokens, lvalue_tokens, expr_right_tokens, expr_tokens, statement_tokens,
    statements_tokens, ifblock_tokens, ifblocks_tokens, var_type_tokens, qualifier_token,
    value_comma_tokens, initial_values_tokens, decl_tokens, decls_tokens, packet_field_tokens,
    packet_fields_tokens, parser_condition_tokens, packet_tokens, packets_tokens, device_tokens,
    snippet_tokens, snippets_tokens, pair_tokens, connection_tokens, connections_tokens, prog_tokens,
    pretty,
};

verus! {

// =============================================================================================
// Where tokens stand
// =============================================================================================

/// The tokens `toks` stand in `ts` from position `pos` on.
pub open spec fn at(ts: Seq<SpecToken>, pos: int, toks: Seq<SpecToken>) -> bool {
    0 <= pos && pos + toks.len() <= ts.len() && ts.subrange(pos, pos + toks.len()) == toks
}

proof fn lemma_at_split(ts: Seq<SpecToken>, pos: int, a: Seq<SpecToken>, b: Seq<SpecToken>)
    requires at(ts, pos, a + b),
    ensures at(ts, pos, a), at(ts, pos + a.len(), b),
{
    assert(ts.subrange(pos, pos + a.len()) =~= (a + b).subrange(0, a.len() as int));
    assert((a + b).subrange(0, a.len() as int) =~= a);
    assert(ts.subrange(pos + a.len(), pos + a.len() + b.len()) =~= (a + b).subrange(a.len() as int, (a.len() + b.len()) as int));
    assert((a + b).subrange(a.len() as int, (a.len() + b.len()) as int) =~= b);
}

proof fn lemma_at_index(ts: Seq<SpecToken>, pos: int, toks: Seq<SpecToken>, i: int)
    requires at(ts, pos, toks), 0 <= i < toks.len(),
    ensures ts[pos + i] == toks[i], token_at(ts, pos + i) == Some(toks[i]),
{
    assert(ts.subrange(pos, pos + toks.len())[i] == ts[pos + i]);
}

/// A token that can follow an expression without becoming part of it.
pub open spec fn ends_expr(t: Option<SpecToken>) -> bool {
    match t {
        None => true,
        Some(t) => !(spec_binop(t) is Some || t is Cond || t is SquareLeft || t is Dot),
    }
}

/// A token that can follow an lvalue without becoming part of it.
pub open spec fn ends_lvalue(t: Option<SpecToken>) -> bool {
    match t {
        None => true,
        Some(t) => !(t is SquareLeft || t is Dot),
    }
}

// =============================================================================================
// Operands, expressions and statements
// =============================================================================================

proof fn lemma_operand_nonempty(o: SpecOperand)
    ensures operand_tokens(o).len() > 0,
            o is LValue ==> operand_tokens(o)[0] is Identifier,
            o is Value ==> operand_tokens(o)[0] is Value,
{
    match o {
        SpecOperand::LValue(l) => {
            match l {
                SpecLValue::Scalar(n) => {},
                SpecLValue::Field(n, f) => {},
                SpecLValue::Array(n, a) => {},
            }
        },
        SpecOperand::Value(v) => {},
    }
}

proof fn lemma_parse_lvalue(ts: Seq<SpecToken>, pos: int, l: SpecLValue)
    requires
        at(ts, pos, lvalue_tokens(l)),
        ends_lvalue(token_at(ts, pos + lvalue_tokens(l).len())),
    ensures
        spec_lvalue(ts, pos) == Ok::<(SpecLValue, int), crate::parsing::ParseError>((l, pos + lvalue_tokens(l).len())),
    decreases l, 0int,
{
    let toks = lvalue_tokens(l);
    lemma_at_index(ts, pos, toks, 0);
    match l {
        SpecLValue::Scalar(n) => {
        },
        SpecLValue::Field(n, f) => {
            lemma_at_index(ts, pos, toks, 1);
            lemma_at_index(ts, pos, toks, 2);
        },
        SpecLValue::Array(n, a) => {
            lemma_at_index(ts, pos, toks, 1);
            let head = seq![SpecToken::Identifier(n), SpecToken::SquareLeft];
            assert(toks == head + operand_tokens(*a) + seq![SpecToken::SquareRight]);
            lemma_at_split(ts, pos, head + operand_tokens(*a), seq![SpecToken::SquareRight]);
            lemma_at_split(ts, pos, head, operand_tokens(*a));
            let q = pos + 2 + operand_tokens(*a).len();
            lemma_at_index(ts, q, seq![SpecToken::SquareRight], 0);
            lemma_parse_operand(ts, pos + 2, *a);
        },
    }
}

proof fn lemma_parse_operand(ts: Seq<SpecToken>, pos: int, o: SpecOperand)
    requires
        at(ts, pos, operand_tokens(o)),
        ends_lvalue(token_at(ts, pos + operand_tokens(o).len())),
    ensures
        spec_operand(ts, pos) == Ok::<(SpecOperand, int), crate::parsing::ParseError>((o, pos + operand_tokens(o).len())),
    decreases o, 1int,
{
    lemma_operand_nonempty(o);
    lemma_at_index(ts, pos, operand_tokens(o), 0);
    match o {
        SpecOperand::LValue(l) => {
            lemma_parse_lvalue(ts, pos, l);
        },
        SpecOperand::Value(v) => {},
    }
}

proof fn lemma_parse_expr_right(ts: Seq<SpecToken>, pos: int, r: SpecExprRight)
    requires
        at(ts, pos, expr_right_tokens(r)),
        ends_expr(token_at(ts, pos + expr_right_tokens(r).len())),
    ensures
        spec_expr_right(ts, pos) == Ok::<(SpecExprRight, int), crate::parsing::ParseError>((r, pos + expr_right_tokens(r).len())),
{
    let toks = expr_right_tokens(r);
    match r {
        SpecExprRight::Empty => {
            assert(toks.len() == 0);
        },
        SpecExprRight::BinOp(op, o) => {
            lemma_at_index(ts, pos, toks, 0);
            lemma_at_split(ts, pos, seq![binop_token(op)], operand_tokens(o));
            lemma_parse_operand(ts, pos + 1, o);
            assert(spec_binop(binop_token(op)) == Some(op));
        },
        SpecExprRight::Cond(a, b) => {
            lemma_at_index(ts, pos, toks, 0);
            let s1 = seq![SpecToken::Cond] + operand_tokens(a);
            let s2 = s1 + seq![SpecToken::Colon];
            lemma_at_split(ts, pos, s2, operand_tokens(b));
            lemma_at_split(ts, pos, s1, seq![SpecToken::Colon]);
            lemma_at_split(ts, pos, seq![SpecToken::Cond], operand_tokens(a));
            lemma_at_index(ts, pos + s1.len(), seq![SpecToken::Colon], 0);
            lemma_parse_operand(ts, pos + 1, a);
            lemma_parse_operand(ts, pos + s2.len(), b);
        },
    }
}

proof fn lemma_parse_expr(ts: Seq<SpecToken>, pos: int, e: SpecExpr)
    requires
        at(ts, pos, expr_tokens(e)),
        ends_expr(token_at(ts, pos + expr_tokens(e).len())),
    ensures
        spec_expr(ts, pos) == Ok::<(SpecExpr, int), crate::parsing::ParseError>((e, pos + expr_tokens(e).len())),
{
    lemma_operand_nonempty(e.op1);
    lemma_at_split(ts, pos, operand_tokens(e.op1), expr_right_tokens(e.expr_right));
    let q = pos + operand_tokens(e.op1).len();
    let rt = expr_right_tokens(e.expr_right);
    if rt.len() > 0 {
        lemma_at_index(ts, q, rt, 0);
    }
    lemma_parse_operand(ts, pos, e.op1);
    lemma_parse_expr_right(ts, q, e.expr_right);
}

proof fn lemma_parse_statement(ts: Seq<SpecToken>, pos: int, s: SpecStatement)
    requires
        at(ts, pos, statement_tokens(s)),
    ensures
        spec_statement(ts, pos) == Ok::<(SpecStatement, int), crate::parsing::ParseError>((s, pos + statement_tokens(s).len())),
{
    let a = lvalue_tokens(s.lvalue);
    let b = a + seq![SpecToken::Assign];
    let c = b + expr_tokens(s.expr);
    assert(statement_tokens(s) == c + seq![SpecToken::SemiColon]);
    lemma_at_split(ts, pos, c, seq![SpecToken::SemiColon]);
    lemma_at_split(ts, pos, b, expr_tokens(s.expr));
    lemma_at_split(ts, pos, a, seq![SpecToken::Assign]);
    lemma_at_index(ts, pos + a.len(), seq![SpecToken::Assign], 0);
    lemma_at_index(ts, pos + c.len(), seq![SpecToken::SemiColon], 0);
    lemma_parse_lvalue(ts, pos, s.lvalue);
    lemma_parse_expr(ts, pos + b.len(), s.expr);
}

// =============================================================================================
// Lists
// =============================================================================================

proof fn lemma_flat_cons<T>(xs: Seq<T>, f: spec_fn(T) -> Seq<SpecToken>)
    requires xs.len() > 0,
    ensures flat(xs, f) == f(xs[0]) + flat(xs.drop_first(), f),
{
}

/// A list of items, each starting with a token that starts the list, reads back as the items
/// when what follows the list does not start an item.
proof fn lemma_many<T>(
    ts: Seq<SpecToken>,
    pos: int,
    xs: Seq<T>,
    starts: spec_fn(SpecToken) -> bool,
    item: spec_fn(Seq<SpecToken>, int) -> SResult<T>,
    f: spec_fn(T) -> Seq<SpecToken>,
    follow: spec_fn(Option<SpecToken>) -> bool,
)
    requires
        at(ts, pos, flat(xs, f)),
        forall|i: int| 0 <= i < xs.len() ==> (#[trigger] f(xs[i])).len() > 0 && starts(f(xs[i])[0])
            && follow(Some(f(xs[i])[0])),
        forall|q: int, i: int| #![trigger item(ts, q), xs[i]]
            0 <= i < xs.len() && at(ts, q, f(xs[i])) && follow(token_at(ts, q + f(xs[i]).len()))
            ==> item(ts, q) == Ok::<(T, int), crate::parsing::ParseError>((xs[i], q + f(xs[i]).len())),
        follow(token_at(ts, pos + flat(xs, f).len())),
        !(0 <= pos + flat(xs, f).len() < ts.len() && starts(ts[pos + flat(xs, f).len()])),
    ensures
        many(ts, pos, starts, item) == Ok::<(Seq<T>, int), crate::parsing::ParseError>((xs, pos + flat(xs, f).len())),
    decreases xs.len(),
{
    if xs.len() == 0 {
        assert(flat(xs, f).len() == 0);
        assert(xs =~= Seq::<T>::empty());
    } else {
        let x = xs[0];
        let rest = xs.drop_first();
        lemma_flat_cons(xs, f);
        lemma_at_split(ts, pos, f(x), flat(rest, f));
        let q = pos + f(x).len();
        lemma_at_index(ts, pos, f(x), 0);
        assert(f(xs[0]).len() > 0);
        if rest.len() > 0 {
            lemma_flat_cons(rest, f);
            assert(rest[0] == xs[1]);
            assert(f(xs[1]).len() > 0);
            lemma_at_split(ts, q, f(rest[0]), flat(rest.drop_first(), f));
            lemma_at_index(ts, q, f(rest[0]), 0);
            assert(follow(token_at(ts, q)));
        } else {
            assert(flat(rest, f).len() == 0);
        }
        assert(item(ts, pos) == Ok::<(T, int), crate::parsing::ParseError>((xs[0], q)));
        assert forall|i: int| 0 <= i < rest.len() implies (#[trigger] f(rest[i])).len() > 0 && starts(f(rest[i])[0])
            && follow(Some(f(rest[i])[0])) by {
            assert(rest[i] == xs[i + 1]);
        }
        assert forall|qq: int, i: int| #![trigger item(ts, qq), rest[i]]
            0 <= i < rest.len() && at(ts, qq, f(rest[i])) && follow(token_at(ts, qq + f(rest[i]).len()))
            implies item(ts, qq) == Ok::<(T, int), crate::parsing::ParseError>((rest[i], qq + f(rest[i]).len())) by {
            assert(rest[i] == xs[i + 1]);
            assert(item(ts, qq) == Ok::<(T, int), crate::parsing::ParseError>((xs[i + 1], qq + f(xs[i + 1]).len())));
        }
        lemma_many(ts, q, rest, starts, item, f, follow);
        assert(starts(ts[pos]));
        assert(seq![x] + rest =~= xs);
        assert(q + flat(rest, f).len() == pos + flat(xs, f).len());
    }
}

/// What follows anything: no condition.
pub open spec fn any_follow() -> spec_fn(Option<SpecToken>) -> bool {
    |t: Option<SpecToken>| true
}

proof fn lemma_statement_nonempty(s: SpecStatement)
    ensures statement_tokens(s).len() > 0, statement_tokens(s)[0] is Identifier,
{
    match s.lvalue {
        SpecLValue::Scalar(n) => {},
        SpecLValue::Field(n, f) => {},
        SpecLValue::Array(n, a) => {},
    }
}

proof fn lemma_parse_statements(ts: Seq<SpecToken>, pos: int, ss: Seq<SpecStatement>)
    requires
        at(ts, pos, statements_tokens(ss)),
        !(0 <= pos + statements_tokens(ss).len() < ts.len() && ts[pos + statements_tokens(ss).len()] is Identifier),
    ensures
        spec_statements(ts, pos) == Ok::<(Seq<SpecStatement>, int), crate::parsing::ParseError>((ss, pos + statements_tokens(ss).len())),
{
    let starts = |t: SpecToken| t is Identifier;
    let item = |ts: Seq<SpecToken>, p: int| spec_statement(ts, p);
    let f = |s: SpecStatement| statement_tokens(s);
    assert forall|i: int| 0 <= i < ss.len() implies (#[trigger] f(ss[i])).len() > 0 && starts(f(ss[i])[0])
        && any_follow()(Some(f(ss[i])[0])) by {
        lemma_statement_nonempty(ss[i]);
    }
    assert forall|q: int, i: int| #![trigger item(ts, q), ss[i]]
        0 <= i < ss.len() && at(ts, q, f(ss[i])) && any_follow()(token_at(ts, q + f(ss[i]).len()))
        implies item(ts, q) == Ok::<(SpecStatement, int), crate::parsing::ParseError>((ss[i], q + f(ss[i]).len())) by {
        lemma_parse_statement(ts, q, ss[i]);
    }
    lemma_many(ts, pos, ss, starts, item, f, any_follow());
}

// =============================================================================================
// Blocks
// =============================================================================================

/// A block that the parser gives back as it is: `if`, `else` or a non-empty run of statements,
/// numbered as the parser numbers the block at index `k` after `ifid` earlier blocks, with the
/// constant condition where no condition is written.
pub open spec fn block_ok(b: SpecIfBlock, ifid: int) -> bool {
    &&& 1 <= b.condtype <= 3
    &&& b.id as int == block_id(b.condtype, ifid)
    &&& b.condtype != 1 ==> b.condition == dummy_condition()
    &&& b.condtype == 3 ==> b.statements.len() > 0
}

/// Blocks that read back: each is well formed, and no two runs of statements are adjacent.
pub open spec fn blocks_ok(bs: Seq<SpecIfBlock>, ifid: int) -> bool {
    &&& forall|k: int| 0 <= k < bs.len() ==> block_ok(#[trigger] bs[k], ifid + k)
    &&& forall|k: int| 0 <= k < bs.len() - 1 ==> !(#[trigger] bs[k].condtype == 3 && bs[k + 1].condtype == 3)
}

proof fn lemma_ifblock_first(b: SpecIfBlock)
    requires 1 <= b.condtype <= 3, b.condtype == 3 ==> b.statements.len() > 0,
    ensures
        ifblock_tokens(b).len() > 0,
        block_kind(ifblock_tokens(b)[0]) == b.condtype,
{
    if b.condtype == 3 {
        lemma_flat_cons(b.statements, |s: SpecStatement| statement_tokens(s));
        lemma_statement_nonempty(b.statements[0]);
    }
}

proof fn lemma_parse_ifblock(ts: Seq<SpecToken>, pos: int, b: SpecIfBlock, ifid: int)
    requires
        at(ts, pos, ifblock_tokens(b)),
        block_ok(b, ifid),
        b.condtype == 3 ==> !(0 <= pos + ifblock_tokens(b).len() < ts.len() && ts[pos + ifblock_tokens(b).len()] is Identifier),
    ensures
        spec_ifblock(ts, pos, block_id(b.condtype, ifid) as u64, b.condtype)
            == Ok::<(SpecIfBlock, int), crate::parsing::ParseError>((b, pos + ifblock_tokens(b).len())),
{
    let st = statements_tokens(b.statements);
    if b.condtype == 1 {
        let a = seq![SpecToken::If, SpecToken::ParenLeft];
        let c = a + expr_tokens(b.condition);
        let d = c + seq![SpecToken::ParenRight, SpecToken::BraceLeft];
        let e = d + st;
        assert(ifblock_tokens(b) == e + seq![SpecToken::BraceRight]);
        lemma_at_split(ts, pos, e, seq![SpecToken::BraceRight]);
        lemma_at_split(ts, pos, d, st);
        lemma_at_split(ts, pos, c, seq![SpecToken::ParenRight, SpecToken::BraceLeft]);
        lemma_at_split(ts, pos, a, expr_tokens(b.condition));
        lemma_at_index(ts, pos, a, 0);
        lemma_at_index(ts, pos, a, 1);
        lemma_at_index(ts, pos + c.len(), seq![SpecToken::ParenRight, SpecToken::BraceLeft], 0);
        lemma_at_index(ts, pos + c.len(), seq![SpecToken::ParenRight, SpecToken::BraceLeft], 1);
        lemma_at_index(ts, pos + e.len(), seq![SpecToken::BraceRight], 0);
        lemma_parse_expr(ts, pos + 2, b.condition);
        lemma_parse_statements(ts, pos + d.len(), b.statements);
    } else if b.condtype == 2 {
        let a = seq![SpecToken::Else, SpecToken::BraceLeft];
        let e = a + st;
        assert(ifblock_tokens(b) == e + seq![SpecToken::BraceRight]);
        lemma_at_split(ts, pos, e, seq![SpecToken::BraceRight]);
        lemma_at_split(ts, pos, a, st);
        lemma_at_index(ts, pos, a, 0);
        lemma_at_index(ts, pos, a, 1);
        lemma_at_index(ts, pos + e.len(), seq![SpecToken::BraceRight], 0);
        lemma_parse_statements(ts, pos + 2, b.statements);
    } else {
        lemma_parse_statements(ts, pos, b.statements);
    }
}

proof fn lemma_parse_ifblocks(ts: Seq<SpecToken>, pos: int, bs: Seq<SpecIfBlock>, ifid: int)
    requires
        at(ts, pos, ifblocks_tokens(bs)),
        blocks_ok(bs, ifid),
        pos + ifblocks_tokens(bs).len() < ts.len(),
        block_kind(ts[pos + ifblocks_tokens(bs).len()]) == 0,
    ensures
        spec_ifblocks(ts, pos, ifid) == Ok::<(Seq<SpecIfBlock>, int), crate::parsing::ParseError>((bs, pos + ifblocks_tokens(bs).len())),
    decreases bs.len(),
{
    let f = |b: SpecIfBlock| ifblock_tokens(b);
    if bs.len() == 0 {
        assert(bs =~= Seq::<SpecIfBlock>::empty());
    } else {
        let b = bs[0];
        let rest = bs.drop_first();
        lemma_flat_cons(bs, f);
        lemma_at_split(ts, pos, f(b), flat(rest, f));
        assert(block_ok(bs[0], ifid + 0));
        lemma_ifblock_first(b);
        lemma_at_index(ts, pos, f(b), 0);
        let q = pos + f(b).len();
        if rest.len() > 0 {
            lemma_flat_cons(rest, f);
            lemma_at_split(ts, q, f(rest[0]), flat(rest.drop_first(), f));
            assert(rest[0] == bs[1]);
            assert(block_ok(bs[1], ifid + 1));
            lemma_ifblock_first(rest[0]);
            lemma_at_index(ts, q, f(rest[0]), 0);
            assert(!(bs[0].condtype == 3 && bs[1].condtype == 3));
        }
        lemma_parse_ifblock(ts, pos, b, ifid);
        assert(blocks_ok(rest, ifid + 1)) by {
            assert forall|k: int| 0 <= k < rest.len() implies block_ok(#[trigger] rest[k], ifid + 1 + k) by {
                assert(rest[k] == bs[k + 1]);
                assert(block_ok(bs[k + 1], ifid + (k + 1)));
            }
            assert forall|k: int| 0 <= k < rest.len() - 1 implies !(#[trigger] rest[k].condtype == 3 && rest[k + 1].condtype == 3) by {
                assert(rest[k] == bs[k + 1]);
                assert(rest[k + 1] == bs[k + 2]);
                assert(!(bs[k + 1].condtype == 3 && bs[k + 2].condtype == 3));
            }
        }
        lemma_parse_ifblocks(ts, q, rest, ifid + 1);
        assert(seq![b] + rest =~= bs);
        assert((block_id(b.condtype, ifid) as u64) == b.id);
    }
}

// =============================================================================================
// Declarations
// =============================================================================================

/// A type that reads back: bit vectors are from one to 32 bits wide.
pub open spec fn type_ok(vt: SpecVarType) -> bool {
    match vt.var_info {
        SpecVarInfo::BitArray(w, _) => 1 <= w <= 32,
        SpecVarInfo::Packet(_) => true,
    }
}

proof fn lemma_parse_type(ts: Seq<SpecToken>, pos: int, vt: SpecVarType)
    requires
        at(ts, pos, var_type_tokens(vt)),
        type_ok(vt),
    ensures
        spec_type_annotation(ts, pos, vt.type_qualifier) == Ok::<(SpecVarType, int), crate::parsing::ParseError>((vt, pos + var_type_tokens(vt).len())),
{
    let toks = var_type_tokens(vt);
    match vt.var_info {
        SpecVarInfo::Packet(n) => {
            lemma_at_index(ts, pos, toks, 0);
            lemma_at_index(ts, pos, toks, 1);
        },
        SpecVarInfo::BitArray(w, n) => {
            lemma_at_index(ts, pos, toks, 0);
            lemma_at_index(ts, pos, toks, 1);
            lemma_at_index(ts, pos, toks, 2);
            lemma_at_index(ts, pos, toks, 3);
            lemma_at_index(ts, pos, toks, 4);
            lemma_at_index(ts, pos, toks, 5);
            lemma_at_index(ts, pos, toks, 6);
            lemma_at_index(ts, pos, toks, 7);
        },
    }
}

proof fn lemma_parse_initial_values(ts: Seq<SpecToken>, pos: int, vals: Seq<u32>)
    requires
        vals.len() > 0,
        at(ts, pos, initial_values_tokens(vals).drop_first()),
    ensures
        spec_initial_values(ts, pos) == Ok::<(Seq<u32>, int), crate::parsing::ParseError>((vals, pos + initial_values_tokens(vals).len() - 1)),
{
    let f = |v: u32| value_comma_tokens(v);
    let body = flat(vals, f);
    let toks = seq![SpecToken::BraceLeft] + body + seq![SpecToken::BraceRight];
    assert(initial_values_tokens(vals).drop_first() =~= toks);
    lemma_at_split(ts, pos, seq![SpecToken::BraceLeft] + body, seq![SpecToken::BraceRight]);
    lemma_at_split(ts, pos, seq![SpecToken::BraceLeft], body);
    lemma_at_index(ts, pos, toks, 0);
    lemma_at_index(ts, pos + 1 + body.len(), seq![SpecToken::BraceRight], 0);
    let starts = |t: SpecToken| t is Value;
    let item = |ts: Seq<SpecToken>, p: int| spec_value_comma(ts, p);
    assert forall|q: int, i: int| #![trigger item(ts, q), vals[i]]
        0 <= i < vals.len() && at(ts, q, f(vals[i])) && any_follow()(token_at(ts, q + f(vals[i]).len()))
        implies item(ts, q) == Ok::<(u32, int), crate::parsing::ParseError>((vals[i], q + f(vals[i]).len())) by {
        lemma_at_index(ts, q, f(vals[i]), 0);
        lemma_at_index(ts, q, f(vals[i]), 1);
    }
    lemma_many(ts, pos + 1, vals, starts, item, f, any_follow());
}

/// A declaration that reads back: its type reads back and its initial values pass the checks.
pub open spec fn decl_ok(d: SpecVariableDecl) -> bool {
    type_ok(d.var_type) && initial_values_error(d.var_type, d.initial_values, 0) is None
}

proof fn lemma_parse_decl(ts: Seq<SpecToken>, pos: int, d: SpecVariableDecl)
    requires
        at(ts, pos, decl_tokens(d)),
        decl_ok(d),
    ensures
        spec_variable_decl(ts, pos) == Ok::<(SpecVariableDecl, int), crate::parsing::ParseError>((d, pos + decl_tokens(d).len())),
{
    let a = seq![qualifier_token(d.var_type.type_qualifier), SpecToken::Identifier(d.identifier)];
    let vt = var_type_tokens(d.var_type);
    let iv = initial_values_tokens(d.initial_values);
    let b = a + vt;
    let c = b + iv;
    assert(decl_tokens(d) == c + seq![SpecToken::SemiColon]);
    lemma_at_split(ts, pos, c, seq![SpecToken::SemiColon]);
    lemma_at_split(ts, pos, b, iv);
    lemma_at_split(ts, pos, a, vt);
    lemma_at_index(ts, pos, a, 0);
    lemma_at_index(ts, pos, a, 1);
    lemma_at_index(ts, pos + c.len(), seq![SpecToken::SemiColon], 0);
    lemma_parse_type(ts, pos + 2, d.var_type);
    assert(initial_values_error(d.var_type, d.initial_values, pos) is None);
    if d.initial_values.len() > 0 {
        lemma_at_index(ts, pos + b.len(), iv, 0);
        assert(iv == seq![iv[0]] + iv.drop_first());
        lemma_at_split(ts, pos + b.len(), seq![iv[0]], iv.drop_first());
        lemma_parse_initial_values(ts, pos + b.len() + 1, d.initial_values);
    } else {
        assert(d.initial_values =~= Seq::<u32>::empty());
    }
}

proof fn lemma_parse_decls(ts: Seq<SpecToken>, pos: int, ds: Seq<SpecVariableDecl>, starts: spec_fn(SpecToken) -> bool)
    requires
        at(ts, pos, decls_tokens(ds)),
        forall|i: int| 0 <= i < ds.len() ==> decl_ok(#[trigger] ds[i]) && starts(qualifier_token(ds[i].var_type.type_qualifier)),
        !(0 <= pos + decls_tokens(ds).len() < ts.len() && starts(ts[pos + decls_tokens(ds).len()])),
    ensures
        many(ts, pos, starts, |ts: Seq<SpecToken>, p: int| spec_variable_decl(ts, p))
            == Ok::<(Seq<SpecVariableDecl>, int), crate::parsing::ParseError>((ds, pos + decls_tokens(ds).len())),
{
    let item = |ts: Seq<SpecToken>, p: int| spec_variable_decl(ts, p);
    let f = |d: SpecVariableDecl| decl_tokens(d);
    assert forall|q: int, i: int| #![trigger item(ts, q), ds[i]]
        0 <= i < ds.len() && at(ts, q, f(ds[i])) && any_follow()(token_at(ts, q + f(ds[i]).len()))
        implies item(ts, q) == Ok::<(SpecVariableDecl, int), crate::parsing::ParseError>((ds[i], q + f(ds[i]).len())) by {
        lemma_parse_decl(ts, q, ds[i]);
    }
    lemma_many(ts, pos, ds, starts, item, f, any_follow());
}

// =============================================================================================
// Packets
// =============================================================================================

/// A packet field that reads back: its qualifier is `field` and its type reads back.
pub open spec fn packet_field_ok(f: SpecPacketField) -> bool {
    f.var_type.type_qualifier == TypeQualifier::Field && type_ok(f.var_type)
}

proof fn lemma_parse_packet_field(ts: Seq<SpecToken>, pos: int, f: SpecPacketField)
    requires
        at(ts, pos, packet_field_tokens(f)),
        packet_field_ok(f),
    ensures
        spec_packet_field(ts, pos) == Ok::<(SpecPacketField, int), crate::parsing::ParseError>((f, pos + packet_field_tokens(f).len())),
{
    let a = seq![SpecToken::Identifier(f.identifier)];
    let b = a + var_type_tokens(f.var_type);
    assert(packet_field_tokens(f) == b + seq![SpecToken::SemiColon]);
    lemma_at_split(ts, pos, b, seq![SpecToken::SemiColon]);
    lemma_at_split(ts, pos, a, var_type_tokens(f.var_type));
    lemma_at_index(ts, pos, a, 0);
    lemma_at_index(ts, pos + b.len(), seq![SpecToken::SemiColon], 0);
    lemma_parse_type(ts, pos + 1, f.var_type);
}

/// A packet that reads back: it has a parser condition and its fields read back.
pub open spec fn packet_ok(p: SpecPacket) -> bool {
    &&& p.packet_parser_condition is ParserCondition
    &&& forall|i: int| 0 <= i < p.packet_fields.len() ==> packet_field_ok(#[trigger] p.packet_fields[i])
}

proof fn lemma_parse_packet(ts: Seq<SpecToken>, pos: int, p: SpecPacket)
    requires
        at(ts, pos, packet_tokens(p)),
        packet_ok(p),
    ensures
        spec_packet(ts, pos) == Ok::<(SpecPacket, int), crate::parsing::ParseError>((p, pos + packet_tokens(p).len())),
{
    let a = seq![SpecToken::Packet, SpecToken::Identifier(p.packet_id), SpecToken::Colon, SpecToken::Identifier(p.packet_base), SpecToken::ParenLeft];
    let c = parser_condition_tokens(p.packet_parser_condition);
    let b = a + c;
    let d = b + seq![SpecToken::ParenRight, SpecToken::BraceLeft];
    let ft = packet_fields_tokens(p.packet_fields);
    let e = d + ft;
    assert(packet_tokens(p) == e + seq![SpecToken::BraceRight]);
    lemma_at_split(ts, pos, e, seq![SpecToken::BraceRight]);
    lemma_at_split(ts, pos, d, ft);
    lemma_at_split(ts, pos, b, seq![SpecToken::ParenRight, SpecToken::BraceLeft]);
    lemma_at_split(ts, pos, a, c);
    lemma_at_index(ts, pos, a, 0);
    lemma_at_index(ts, pos, a, 1);
    lemma_at_index(ts, pos, a, 2);
    lemma_at_index(ts, pos, a, 3);
    lemma_at_index(ts, pos, a, 4);
    lemma_at_index(ts, pos + 5, c, 0);
    lemma_at_index(ts, pos + 5, c, 1);
    lemma_at_index(ts, pos + 5, c, 2);
    lemma_at_index(ts, pos + b.len(), seq![SpecToken::ParenRight, SpecToken::BraceLeft], 0);
    lemma_at_index(ts, pos + b.len(), seq![SpecToken::ParenRight, SpecToken::BraceLeft], 1);
    lemma_at_index(ts, pos + e.len(), seq![SpecToken::BraceRight], 0);
    let starts = |t: SpecToken| t is Identifier;
    let item = |ts: Seq<SpecToken>, p: int| spec_packet_field(ts, p);
    let f = |x: SpecPacketField| packet_field_tokens(x);
    let fs = p.packet_fields;
    assert forall|q: int, i: int| #![trigger item(ts, q), fs[i]]
        0 <= i < fs.len() && at(ts, q, f(fs[i])) && any_follow()(token_at(ts, q + f(fs[i]).len()))
        implies item(ts, q) == Ok::<(SpecPacketField, int), crate::parsing::ParseError>((fs[i], q + f(fs[i]).len())) by {
        lemma_parse_packet_field(ts, q, fs[i]);
    }
    lemma_many(ts, pos + d.len(), fs, starts, item, f, any_follow());
}

proof fn lemma_parse_packets(ts: Seq<SpecToken>, pos: int, ps: Seq<SpecPacket>)
    requires
        at(ts, pos, packets_tokens(ps)),
        forall|i: int| 0 <= i < ps.len() ==> packet_ok(#[trigger] ps[i]),
        !(0 <= pos + packets_tokens(ps).len() < ts.len() && ts[pos + packets_tokens(ps).len()] is Packet),
    ensures
        spec_packets(ts, pos) == Ok::<(Seq<SpecPacket>, int), crate::parsing::ParseError>((ps, pos + packets_tokens(ps).len())),
{
    let starts = |t: SpecToken| t is Packet;
    let item = |ts: Seq<SpecToken>, p: int| spec_packet(ts, p);
    let f = |x: SpecPacket| packet_tokens(x);
    assert forall|q: int, i: int| #![trigger item(ts, q), ps[i]]
        0 <= i < ps.len() && at(ts, q, f(ps[i])) && any_follow()(token_at(ts, q + f(ps[i]).len()))
        implies item(ts, q) == Ok::<(SpecPacket, int), crate::parsing::ParseError>((ps[i], q + f(ps[i]).len())) by {
        lemma_parse_packet(ts, q, ps[i]);
    }
    lemma_many(ts, pos, ps, starts, item, f, any_follow());
}

// =============================================================================================
// Snippets
// =============================================================================================

/// A snippet that reads back: its declarations are of snippet variables and read back, and
/// its blocks read back.
pub open spec fn snippet_ok(s: SpecSnippet) -> bool {
    &&& forall|i: int| 0 <= i < s.variable_decls.len() ==> decl_ok(#[trigger] s.variable_decls[i])
        && starts_decl(qualifier_token(s.variable_decls[i].var_type.type_qualifier))
    &&& blocks_ok(s.ifblocks, 0)
}

proof fn lemma_parse_snippet(ts: Seq<SpecToken>, pos: int, s: SpecSnippet)
    requires
        at(ts, pos, snippet_tokens(s)),
        snippet_ok(s),
    ensures
        spec_snippet(ts, pos) == Ok::<(SpecSnippet, int), crate::parsing::ParseError>((s, pos + snippet_tokens(s).len())),
{
    let dv = device_tokens(s.device_id);
    let h = seq![SpecToken::Identifier(s.snippet_id), SpecToken::ParenLeft, SpecToken::ParenRight, SpecToken::BraceLeft];
    let dt = decls_tokens(s.variable_decls);
    let bt = ifblocks_tokens(s.ifblocks);
    let a = dv + h;
    let b = a + dt;
    let c = b + bt;
    assert(snippet_tokens(s) == c + seq![SpecToken::BraceRight]);
    lemma_at_split(ts, pos, c, seq![SpecToken::BraceRight]);
    lemma_at_split(ts, pos, b, bt);
    lemma_at_split(ts, pos, a, dt);
    lemma_at_split(ts, pos, dv, h);
    lemma_at_index(ts, pos, dv, 0);
    if s.device_id.len() > 0 {
        lemma_at_index(ts, pos, dv, 1);
        lemma_at_index(ts, pos, dv, 2);
    } else {
        assert(s.device_id =~= Seq::<char>::empty());
    }
    lemma_at_index(ts, pos + dv.len(), h, 0);
    lemma_at_index(ts, pos + dv.len(), h, 1);
    lemma_at_index(ts, pos + dv.len(), h, 2);
    lemma_at_index(ts, pos + dv.len(), h, 3);
    lemma_at_index(ts, pos + c.len(), seq![SpecToken::BraceRight], 0);
    assert(spec_device(ts, pos) == Ok::<(Seq<char>, int), crate::parsing::ParseError>((s.device_id, pos + dv.len())));
    // what follows the declarations starts a block or closes the snippet
    if bt.len() > 0 {
        lemma_flat_cons(s.ifblocks, |b: SpecIfBlock| ifblock_tokens(b));
        assert(block_ok(s.ifblocks[0], 0int + 0));
        lemma_ifblock_first(s.ifblocks[0]);
        lemma_at_split(ts, pos + b.len(), ifblock_tokens(s.ifblocks[0]), ifblocks_tokens(s.ifblocks.drop_first()));
        lemma_at_index(ts, pos + b.len(), ifblock_tokens(s.ifblocks[0]), 0);
    }
    lemma_parse_decls(ts, pos + a.len(), s.variable_decls, |t: SpecToken| starts_decl(t));
    lemma_parse_ifblocks(ts, pos + b.len(), s.ifblocks, 0);
}

proof fn lemma_snippet_first(s: SpecSnippet)
    ensures snippet_tokens(s).len() > 0, snippet_tokens(s)[0] is Snippet || snippet_tokens(s)[0] is Annotation,
{
}

proof fn lemma_parse_snippets(ts: Seq<SpecToken>, pos: int, ss: Seq<SpecSnippet>)
    requires
        at(ts, pos, snippets_tokens(ss)),
        forall|i: int| 0 <= i < ss.len() ==> snippet_ok(#[trigger] ss[i]),
        !(0 <= pos + snippets_tokens(ss).len() < ts.len()
            && (ts[pos + snippets_tokens(ss).len()] is Snippet || ts[pos + snippets_tokens(ss).len()] is Annotation)),
    ensures
        spec_snippets(ts, pos) == Ok::<(Seq<SpecSnippet>, int), crate::parsing::ParseError>((ss, pos + snippets_tokens(ss).len())),
{
    let starts = |t: SpecToken| t is Snippet || t is Annotation;
    let item = |ts: Seq<SpecToken>, p: int| spec_snippet(ts, p);
    let f = |x: SpecSnippet| snippet_tokens(x);
    assert forall|i: int| 0 <= i < ss.len() implies (#[trigger] f(ss[i])).len() > 0 && starts(f(ss[i])[0])
        && any_follow()(Some(f(ss[i])[0])) by {
        lemma_snippet_first(ss[i]);
    }
    assert forall|q: int, i: int| #![trigger item(ts, q), ss[i]]
        0 <= i < ss.len() && at(ts, q, f(ss[i])) && any_follow()(token_at(ts, q + f(ss[i]).len()))
        implies item(ts, q) == Ok::<(SpecSnippet, int), crate::parsing::ParseError>((ss[i], q + f(ss[i]).len())) by {
        lemma_parse_snippet(ts, q, ss[i]);
    }
    lemma_many(ts, pos, ss, starts, item, f, any_follow());
}

// =============================================================================================
// Connections
// =============================================================================================

proof fn lemma_parse_pairs(ts: Seq<SpecToken>, pos: int, ps: Seq<(Seq<char>, Seq<char>)>)
    requires
        at(ts, pos, flat(ps, |p: (Seq<char>, Seq<char>)| pair_tokens(p))),
        !(0 <= pos + flat(ps, |p: (Seq<char>, Seq<char>)| pair_tokens(p)).len() < ts.len()
            && ts[pos + flat(ps, |p: (Seq<char>, Seq<char>)| pair_tokens(p)).len()] is Identifier),
    ensures
        spec_variable_pairs(ts, pos) == Ok::<(Seq<(Seq<char>, Seq<char>)>, int), crate::parsing::ParseError>(
            (ps, pos + flat(ps, |p: (Seq<char>, Seq<char>)| pair_tokens(p)).len())),
{
    let starts = |t: SpecToken| t is Identifier;
    let item = |ts: Seq<SpecToken>, p: int| spec_variable_pair(ts, p);
    let f = |p: (Seq<char>, Seq<char>)| pair_tokens(p);
    assert forall|q: int, i: int| #![trigger item(ts, q), ps[i]]
        0 <= i < ps.len() && at(ts, q, f(ps[i])) && any_follow()(token_at(ts, q + f(ps[i]).len()))
        implies item(ts, q) == Ok::<((Seq<char>, Seq<char>), int), crate::parsing::ParseError>((ps[i], q + f(ps[i]).len())) by {
        lemma_at_index(ts, q, f(ps[i]), 0);
        lemma_at_index(ts, q, f(ps[i]), 1);
        lemma_at_index(ts, q, f(ps[i]), 2);
        lemma_at_index(ts, q, f(ps[i]), 3);
    }
    lemma_many(ts, pos, ps, starts, item, f, any_follow());
}

proof fn lemma_parse_connection(ts: Seq<SpecToken>, pos: int, c: SpecConnection)
    requires
        at(ts, pos, connection_tokens(c)),
        !(0 <= pos + connection_tokens(c).len() < ts.len()
            && (ts[pos + connection_tokens(c).len()] is Identifier || ts[pos + connection_tokens(c).len()] is Colon)),
    ensures
        spec_connection(ts, pos) == Ok::<(SpecConnection, int), crate::parsing::ParseError>((c, pos + connection_tokens(c).len())),
{
    let h = seq![SpecToken::ParenLeft, SpecToken::Identifier(c.from_snippet), SpecToken::Comma, SpecToken::Identifier(c.to_snippet), SpecToken::ParenRight];
    let pt = flat(c.variable_pairs, |p: (Seq<char>, Seq<char>)| pair_tokens(p));
    lemma_at_index(ts, pos, connection_tokens(c), 0);
    lemma_at_index(ts, pos, connection_tokens(c), 1);
    lemma_at_index(ts, pos, connection_tokens(c), 2);
    lemma_at_index(ts, pos, connection_tokens(c), 3);
    lemma_at_index(ts, pos, connection_tokens(c), 4);
    if c.variable_pairs.len() > 0 {
        let rest = seq![SpecToken::Colon] + pt;
        assert(connection_tokens(c) == h + rest);
        lemma_at_split(ts, pos, h, rest);
        lemma_at_split(ts, pos + 5, seq![SpecToken::Colon], pt);
        lemma_at_index(ts, pos, connection_tokens(c), 5);
        lemma_parse_pairs(ts, pos + 6, c.variable_pairs);
    } else {
        assert(connection_tokens(c) =~= h);
        assert(c.variable_pairs =~= Seq::<(Seq<char>, Seq<char>)>::empty());
    }
}

proof fn lemma_parse_connections(ts: Seq<SpecToken>, pos: int, cs: Seq<SpecConnection>)
    requires
        at(ts, pos, connections_tokens(cs)),
        pos + connections_tokens(cs).len() == ts.len(),
    ensures
        spec_connections(ts, pos) == Ok::<(Seq<SpecConnection>, int), crate::parsing::ParseError>((cs, ts.len() as int)),
{
    let starts = |t: SpecToken| true;
    let item = |ts: Seq<SpecToken>, p: int| spec_connection(ts, p);
    let f = |x: SpecConnection| connection_tokens(x);
    let follow = |t: Option<SpecToken>| match t {
        None => true,
        Some(t) => t is ParenLeft,
    };
    assert forall|i: int| 0 <= i < cs.len() implies (#[trigger] f(cs[i])).len() > 0 && starts(f(cs[i])[0])
        && follow(Some(f(cs[i])[0])) by {
    }
    assert forall|q: int, i: int| #![trigger item(ts, q), cs[i]]
        0 <= i < cs.len() && at(ts, q, f(cs[i])) && follow(token_at(ts, q + f(cs[i]).len()))
        implies item(ts, q) == Ok::<(SpecConnection, int), crate::parsing::ParseError>((cs[i], q + f(cs[i]).len())) by {
        lemma_parse_connection(ts, q, cs[i]);
    }
    lemma_many(ts, pos, cs, starts, item, f, follow);
}

// =============================================================================================
// Programs
// =============================================================================================

/// A program that reads back from its tokens: globals are declared `global`, snippet variables
/// with a snippet qualifier, every type and list of initial values passes the parser's checks,
/// every packet has a parser condition and `field` fields, and every snippet's blocks are
/// numbered as the parser numbers them, with no two runs of statements side by side.
pub open spec fn prog_ok(p: SpecProg) -> bool {
    &&& forall|i: int| 0 <= i < p.globals.len() ==> decl_ok(#[trigger] p.globals[i])
        && p.globals[i].var_type.type_qualifier == TypeQualifier::Global
    &&& forall|i: int| 0 <= i < p.packets.len() ==> packet_ok(#[trigger] p.packets[i])
    &&& forall|i: int| 0 <= i < p.snippets.len() ==> snippet_ok(#[trigger] p.snippets[i])
}

proof fn lemma_first_of_rest(ps: Seq<SpecPacket>, ss: Seq<SpecSnippet>, cs: Seq<SpecConnection>)
    ensures
        ({
            let r = packets_tokens(ps) + snippets_tokens(ss) + connections_tokens(cs);
            r.len() > 0 ==> (ps.len() > 0 ==> r[0] is Packet)
                && (ps.len() == 0 && ss.len() > 0 ==> (r[0] is Snippet || r[0] is Annotation))
                && (ps.len() == 0 && ss.len() == 0 ==> r[0] is ParenLeft)
                && (ps.len() == 0 ==> !(r[0] is Packet))
                && (ps.len() == 0 && ss.len() == 0 ==> !(r[0] is Snippet || r[0] is Annotation))
                && !(r[0] is Global)
        }),
{
    let pt = packets_tokens(ps);
    let st = snippets_tokens(ss);
    let ct = connections_tokens(cs);
    if ps.len() > 0 {
        lemma_flat_cons(ps, |x: SpecPacket| packet_tokens(x));
    } else {
        assert(pt.len() == 0);
    }
    if ss.len() > 0 {
        lemma_flat_cons(ss, |x: SpecSnippet| snippet_tokens(x));
        lemma_snippet_first(ss[0]);
    } else {
        assert(st.len() == 0);
    }
    if cs.len() > 0 {
        lemma_flat_cons(cs, |x: SpecConnection| connection_tokens(x));
    } else {
        assert(ct.len() == 0);
    }
}

proof fn lemma_prog_layout(p: SpecProg)
    ensures
        ({
            let ts = prog_tokens(p);
            let g = decls_tokens(p.globals);
            let pt = packets_tokens(p.packets);
            let st = snippets_tokens(p.snippets);
            let ct = connections_tokens(p.connections);
            &&& ts == g + pt + st + ct
            &&& at(ts, 0, g)
            &&& at(ts, g.len() as int, pt)
            &&& at(ts, (g.len() + pt.len()) as int, st)
            &&& at(ts, (g.len() + pt.len() + st.len()) as int, ct)
            &&& g.len() + pt.len() + st.len() + ct.len() == ts.len()
        }),
{
    let ts = prog_tokens(p);
    let g = decls_tokens(p.globals);
    let pt = packets_tokens(p.packets);
    let st = snippets_tokens(p.snippets);
    let ct = connections_tokens(p.connections);
    assert(ts == g + pt + st + ct);
    assert(at(ts, 0, ts)) by {
        assert(ts.subrange(0, ts.len() as int) =~= ts);
    }
    lemma_at_split(ts, 0, g + pt + st, ct);
    lemma_at_split(ts, 0, g + pt, st);
    lemma_at_split(ts, 0, g, pt);
}

proof fn lemma_parse_prog_globals(p: SpecProg)
    requires prog_ok(p),
    ensures
        spec_globals(prog_tokens(p), 0) == Ok::<(Seq<SpecVariableDecl>, int), ParseError>((p.globals, decls_tokens(p.globals).len() as int)),
{
    let ts = prog_tokens(p);
    let g = decls_tokens(p.globals);
    lemma_prog_layout(p);
    lemma_first_of_rest(p.packets, p.snippets, p.connections);
    let r = packets_tokens(p.packets) + snippets_tokens(p.snippets) + connections_tokens(p.connections);
    assert(ts =~= g + r);
    if r.len() > 0 {
        assert(ts[g.len() as int] == r[0]);
    }
    lemma_parse_decls(ts, 0, p.globals, |t: SpecToken| t is Global);
}

proof fn lemma_parse_prog_packets(p: SpecProg)
    requires prog_ok(p),
    ensures
        ({
            let q = decls_tokens(p.globals).len() as int;
            spec_packets(prog_tokens(p), q) == Ok::<(Seq<SpecPacket>, int), ParseError>((p.packets, q + packets_tokens(p.packets).len()))
        }),
{
    let ts = prog_tokens(p);
    let g = decls_tokens(p.globals);
    let pt = packets_tokens(p.packets);
    lemma_prog_layout(p);
    lemma_first_of_rest(Seq::empty(), p.snippets, p.connections);
    assert(packets_tokens(Seq::<SpecPacket>::empty()).len() == 0);
    let r2 = snippets_tokens(p.snippets) + connections_tokens(p.connections);
    assert(packets_tokens(Seq::<SpecPacket>::empty()) + snippets_tokens(p.snippets) + connections_tokens(p.connections) =~= r2);
    assert(ts =~= (g + pt) + r2);
    if r2.len() > 0 {
        assert(ts[(g.len() + pt.len()) as int] == r2[0]);
    }
    lemma_parse_packets(ts, g.len() as int, p.packets);
}

proof fn lemma_parse_prog_snippets(p: SpecProg)
    requires prog_ok(p),
    ensures
        ({
            let q = (decls_tokens(p.globals).len() + packets_tokens(p.packets).len()) as int;
            spec_snippets(prog_tokens(p), q) == Ok::<(Seq<SpecSnippet>, int), ParseError>((p.snippets, q + snippets_tokens(p.snippets).len()))
        }),
{
    let ts = prog_tokens(p);
    let g = decls_tokens(p.globals);
    let pt = packets_tokens(p.packets);
    let st = snippets_tokens(p.snippets);
    let ct = connections_tokens(p.connections);
    lemma_prog_layout(p);
    lemma_first_of_rest(Seq::empty(), Seq::empty(), p.connections);
    assert(packets_tokens(Seq::<SpecPacket>::empty()).len() == 0);
    assert(snippets_tokens(Seq::<SpecSnippet>::empty()).len() == 0);
    assert(packets_tokens(Seq::<SpecPacket>::empty()) + snippets_tokens(Seq::<SpecSnippet>::empty()) + ct =~= ct);
    assert(ts =~= (g + pt + st) + ct);
    if ct.len() > 0 {
        assert(ts[(g.len() + pt.len() + st.len()) as int] == ct[0]);
    }
    lemma_parse_snippets(ts, (g.len() + pt.len()) as int, p.snippets);
}

/// The parser gives back a program from the tokens the pretty printer spells it with.
pub proof fn lemma_parse_prog_tokens(p: SpecProg)
    requires
        prog_ok(p),
    ensures
        spec_prog(prog_tokens(p)) == Ok::<SpecProg, ParseError>(p),
{
    let ts = prog_tokens(p);
    let g = decls_tokens(p.globals);
    let pt = packets_tokens(p.packets);
    let st = snippets_tokens(p.snippets);
    lemma_prog_layout(p);
    lemma_parse_prog_globals(p);
    lemma_parse_prog_packets(p);
    lemma_parse_prog_snippets(p);
    lemma_parse_connections(ts, (g.len() + pt.len() + st.len()) as int, p.connections);
}

/// The pretty printer's text of a program reads back as the program: lexing the text gives
/// the program's tokens, and parsing those gives the program.
pub proof fn lemma_pretty_round_trip(p: SpecProg)
    requires
        prog_ok(p),
        forall|i: int| 0 <= i < prog_tokens(p).len() ==> lexable(#[trigger] prog_tokens(p)[i]),
    ensures
        lex(pretty(p)) == Ok::<Seq<SpecToken>, LexError>(prog_tokens(p)),
        spec_prog(prog_tokens(p)) == Ok::<SpecProg, ParseError>(p),
{
    lemma_lex_render(prog_tokens(p));
    lemma_parse_prog_tokens(p);
}

} // verus!
