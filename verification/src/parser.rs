use vstd::prelude::*;
use crate::token::{Token, SpecToken, tokens_view};
use crate::grammar::{
    vec_view, lemma_vec_view_push, Prog, Globals, Packets, Packet, PacketFields, PacketField,
    PacketParserCondition, Snippets, Snippet, IfBlocks, IfBlock, Condition, Connections, Connection,
    VariablePair, VariableDecls, TypeQualifier, VarInfo, VarType, VariableDecl, Statements,
    Statement, Expr, BinOpType, ExprRight, Identifier, Value, Operand, LValue, SpecProg, SpecPacket,
    SpecParserCondition, SpecPacketField, SpecSnippet, SpecIfBlock, SpecConnection, SpecVarInfo,
    SpecVarType, SpecVariableDecl, SpecStatement, SpecExpr, SpecExprRight, SpecOperand, SpecLValue,
};
use crate::parsing::{
    ParseError, SResult, prepend_list, many, expect, parsed, parsed_seq, advanced, moved,
    lemma_prepend_push, lemma_prepend_empty, match_token,
};

verus! {

// =============================================================================================
// The grammar, as spec parsers over token sequences
// =============================================================================================

pub open spec fn spec_identifier(ts: Seq<SpecToken>, pos: int) -> SResult<Seq<char>> {
    if pos < 0 || pos >= ts.len() {
        Err(ParseError::UnexpectedEnd)
    } else {
        match ts[pos] {
            SpecToken::Identifier(n) => Ok((n, pos + 1)),
            _ => Err(ParseError::UnexpectedToken(pos as usize)),
        }
    }
}

pub open spec fn spec_value(ts: Seq<SpecToken>, pos: int) -> SResult<u32> {
    if pos < 0 || pos >= ts.len() {
        Err(ParseError::UnexpectedEnd)
    } else {
        match ts[pos] {
            SpecToken::Value(v) => Ok((v, pos + 1)),
            _ => Err(ParseError::UnexpectedToken(pos as usize)),
        }
    }
}

/// An operand: an lvalue or a number.
pub open spec fn spec_operand(ts: Seq<SpecToken>, pos: int) -> SResult<SpecOperand>
    decreases ts.len() - pos, 1int,
{
    if pos < 0 || pos >= ts.len() {
        Err(ParseError::UnexpectedEnd)
    } else {
        match ts[pos] {
            SpecToken::Identifier(_) => match spec_lvalue(ts, pos) {
                Ok((l, p)) => Ok((SpecOperand::LValue(l), p)),
                Err(e) => Err(e),
            },
            SpecToken::Value(v) => Ok((SpecOperand::Value(v), pos + 1)),
            _ => Err(ParseError::UnexpectedToken(pos as usize)),
        }
    }
}

/// An lvalue: `x`, `x.f` or `x[operand]`.
pub open spec fn spec_lvalue(ts: Seq<SpecToken>, pos: int) -> SResult<SpecLValue>
    decreases ts.len() - pos, 0int,
{
    if pos < 0 || pos >= ts.len() {
        Err(ParseError::UnexpectedEnd)
    } else {
        match ts[pos] {
            SpecToken::Identifier(n) => {
                if pos + 1 >= ts.len() || !(ts[pos + 1] is SquareLeft || ts[pos + 1] is Dot) {
                    Ok((SpecLValue::Scalar(n), pos + 1))
                } else if ts[pos + 1] is Dot {
                    match spec_identifier(ts, pos + 2) {
                        Ok((f, p)) => Ok((SpecLValue::Field(n, f), p)),
                        Err(e) => Err(e),
                    }
                } else {
                    match spec_operand(ts, pos + 2) {
                        Err(e) => Err(e),
                        Ok((a, p)) => match expect(ts, p, SpecToken::SquareRight) {
                            Err(e) => Err(e),
                            Ok(q) => Ok((SpecLValue::Array(n, Box::new(a)), q)),
                        },
                    }
                }
            },
            _ => Err(ParseError::UnexpectedToken(pos as usize)),
        }
    }
}

/// The binary operation a token stands for, if any.
pub open spec fn spec_binop(t: SpecToken) -> Option<BinOpType> {
    match t {
        SpecToken::BooleanAnd => Some(BinOpType::BooleanAnd),
        SpecToken::BooleanOr => Some(BinOpType::BooleanOr),
        SpecToken::Plus => Some(BinOpType::Plus),
        SpecToken::Minus => Some(BinOpType::Minus),
        SpecToken::Mul => Some(BinOpType::Mul),
        SpecToken::Div => Some(BinOpType::Div),
        SpecToken::Modulo => Some(BinOpType::Modulo),
        SpecToken::Equal => Some(BinOpType::Equal),
        SpecToken::NotEqual => Some(BinOpType::NotEqual),
        SpecToken::LTEQOp => Some(BinOpType::LTEQOp),
        SpecToken::GTEQOp => Some(BinOpType::GTEQOp),
        SpecToken::LessThan => Some(BinOpType::LessThan),
        SpecToken::GreaterThan => Some(BinOpType::GreaterThan),
        _ => None,
    }
}

/// The operation a token parses into is the one it spells: `and` and `or` give the boolean
/// operations, and the text of any other operator token, between spaces, is the spelling of
/// the operation (`binop_text`); every operation is parsed from some token.
pub proof fn lemma_binop_spelling(t: SpecToken, op: BinOpType)
    ensures
        spec_binop(t) == Some(op) && op == BinOpType::BooleanAnd ==> crate::lexer::token_text(t) == "and"@,
        spec_binop(t) == Some(op) && op == BinOpType::BooleanOr ==> crate::lexer::token_text(t) == "or"@,
        spec_binop(t) == Some(op) && op != BinOpType::BooleanAnd && op != BinOpType::BooleanOr
            ==> " "@ + crate::lexer::token_text(t) + " "@ == crate::trans_snippet::binop_text(op),
        exists|u: SpecToken| spec_binop(u) == Some(op),
{
    reveal_strlit(" ");
    reveal_strlit("and");
    reveal_strlit("or");
    reveal_strlit(" & ");
    reveal_strlit(" | ");
    reveal_strlit(" + ");
    reveal_strlit(" - ");
    reveal_strlit(" * ");
    reveal_strlit(" / ");
    reveal_strlit(" % ");
    reveal_strlit(" == ");
    reveal_strlit(" != ");
    reveal_strlit(" > ");
    reveal_strlit(" < ");
    reveal_strlit(" >= ");
    reveal_strlit(" <= ");
    if spec_binop(t) == Some(op) {
        match t {
            SpecToken::BooleanAnd => {
                assert(crate::lexer::token_text(t) =~= "and"@);
            },
            SpecToken::BooleanOr => {
                assert(crate::lexer::token_text(t) =~= "or"@);
            },
            SpecToken::Plus => {
                assert(" "@ + crate::lexer::token_text(t) + " "@ =~= crate::trans_snippet::binop_text(BinOpType::Plus));
            },
            SpecToken::Minus => {
                assert(" "@ + crate::lexer::token_text(t) + " "@ =~= crate::trans_snippet::binop_text(BinOpType::Minus));
            },
            SpecToken::Mul => {
                assert(" "@ + crate::lexer::token_text(t) + " "@ =~= crate::trans_snippet::binop_text(BinOpType::Mul));
            },
            SpecToken::Div => {
                assert(" "@ + crate::lexer::token_text(t) + " "@ =~= crate::trans_snippet::binop_text(BinOpType::Div));
            },
            SpecToken::Modulo => {
                assert(" "@ + crate::lexer::token_text(t) + " "@ =~= crate::trans_snippet::binop_text(BinOpType::Modulo));
            },
            SpecToken::Equal => {
                assert(" "@ + crate::lexer::token_text(t) + " "@ =~= crate::trans_snippet::binop_text(BinOpType::Equal));
            },
            SpecToken::NotEqual => {
                assert(" "@ + crate::lexer::token_text(t) + " "@ =~= crate::trans_snippet::binop_text(BinOpType::NotEqual));
            },
            SpecToken::LTEQOp => {
                assert(" "@ + crate::lexer::token_text(t) + " "@ =~= crate::trans_snippet::binop_text(BinOpType::LTEQOp));
            },
            SpecToken::GTEQOp => {
                assert(" "@ + crate::lexer::token_text(t) + " "@ =~= crate::trans_snippet::binop_text(BinOpType::GTEQOp));
            },
            SpecToken::LessThan => {
                assert(" "@ + crate::lexer::token_text(t) + " "@ =~= crate::trans_snippet::binop_text(BinOpType::LessThan));
            },
            SpecToken::GreaterThan => {
                assert(" "@ + crate::lexer::token_text(t) + " "@ =~= crate::trans_snippet::binop_text(BinOpType::GreaterThan));
            },
            _ => {},
        }
    }
    let u = match op {
        BinOpType::BooleanAnd => SpecToken::BooleanAnd,
        BinOpType::BooleanOr => SpecToken::BooleanOr,
        BinOpType::Plus => SpecToken::Plus,
        BinOpType::Minus => SpecToken::Minus,
        BinOpType::Mul => SpecToken::Mul,
        BinOpType::Div => SpecToken::Div,
        BinOpType::Modulo => SpecToken::Modulo,
        BinOpType::Equal => SpecToken::Equal,
        BinOpType::NotEqual => SpecToken::NotEqual,
        BinOpType::LTEQOp => SpecToken::LTEQOp,
        BinOpType::GTEQOp => SpecToken::GTEQOp,
        BinOpType::LessThan => SpecToken::LessThan,
        BinOpType::GreaterThan => SpecToken::GreaterThan,
    };
    assert(spec_binop(u) == Some(op));
}

/// What follows the first operand of an expression: `op operand`, `? operand : operand`, or nothing.
pub open spec fn spec_expr_right(ts: Seq<SpecToken>, pos: int) -> SResult<SpecExprRight> {
    if pos < 0 || pos >= ts.len() || !(spec_binop(ts[pos]) is Some || ts[pos] is Cond) {
        Ok((SpecExprRight::Empty, pos))
    } else {
        match spec_binop(ts[pos]) {
            Some(op) => match spec_operand(ts, pos + 1) {
                Ok((o, p)) => Ok((SpecExprRight::BinOp(op, o), p)),
                Err(e) => Err(e),
            },
            None => match spec_operand(ts, pos + 1) {
                Err(e) => Err(e),
                Ok((a, p)) => match expect(ts, p, SpecToken::Colon) {
                    Err(e) => Err(e),
                    Ok(q) => match spec_operand(ts, q) {
                        Err(e) => Err(e),
                        Ok((b, r)) => Ok((SpecExprRight::Cond(a, b), r)),
                    },
                },
            },
        }
    }
}

pub open spec fn spec_expr(ts: Seq<SpecToken>, pos: int) -> SResult<SpecExpr> {
    if pos < 0 || pos >= ts.len() {
        Err(ParseError::UnexpectedEnd)
    } else {
        match spec_operand(ts, pos) {
            Err(e) => Err(e),
            Ok((o, p)) => match spec_expr_right(ts, p) {
                Err(e) => Err(e),
                Ok((r, q)) => Ok((SpecExpr { op1: o, expr_right: r }, q)),
            },
        }
    }
}

/// `lvalue = expr ;`
pub open spec fn spec_statement(ts: Seq<SpecToken>, pos: int) -> SResult<SpecStatement> {
    match spec_lvalue(ts, pos) {
        Err(e) => Err(e),
        Ok((l, p)) => match expect(ts, p, SpecToken::Assign) {
            Err(e) => Err(e),
            Ok(p2) => match spec_expr(ts, p2) {
                Err(e) => Err(e),
                Ok((x, p3)) => match expect(ts, p3, SpecToken::SemiColon) {
                    Err(e) => Err(e),
                    Ok(p4) => Ok((SpecStatement { lvalue: l, expr: x }, p4)),
                },
            },
        },
    }
}

pub open spec fn spec_statements(ts: Seq<SpecToken>, pos: int) -> SResult<Seq<SpecStatement>> {
    many(ts, pos, |t: SpecToken| t is Identifier, |ts: Seq<SpecToken>, p: int| spec_statement(ts, p))
}

/// The condition recorded for `else` blocks and unconditional blocks: the constant 1.
pub open spec fn dummy_condition() -> SpecExpr {
    SpecExpr { op1: SpecOperand::Value(1), expr_right: SpecExprRight::Empty }
}

/// An `if (expr) { statements }` block (condtype 1), an `else { statements }` block (condtype 2)
/// or a run of statements (condtype 3).
pub open spec fn spec_ifblock(ts: Seq<SpecToken>, pos: int, id: u64, condtype: u64) -> SResult<SpecIfBlock> {
    if condtype == 1 {
        match expect(ts, pos, SpecToken::If) {
            Err(e) => Err(e),
            Ok(p1) => match expect(ts, p1, SpecToken::ParenLeft) {
                Err(e) => Err(e),
                Ok(p2) => match spec_expr(ts, p2) {
                    Err(e) => Err(e),
                    Ok((c, p3)) => match expect(ts, p3, SpecToken::ParenRight) {
                        Err(e) => Err(e),
                        Ok(p4) => match expect(ts, p4, SpecToken::BraceLeft) {
                            Err(e) => Err(e),
                            Ok(p5) => match spec_statements(ts, p5) {
                                Err(e) => Err(e),
                                Ok((ss, p6)) => match expect(ts, p6, SpecToken::BraceRight) {
                                    Err(e) => Err(e),
                                    Ok(p7) => Ok((SpecIfBlock { id, condtype, condition: c, statements: ss }, p7)),
                                },
                            },
                        },
                    },
                },
            },
        }
    } else if condtype == 2 {
        match expect(ts, pos, SpecToken::Else) {
            Err(e) => Err(e),
            Ok(p1) => match expect(ts, p1, SpecToken::BraceLeft) {
                Err(e) => Err(e),
                Ok(p2) => match spec_statements(ts, p2) {
                    Err(e) => Err(e),
                    Ok((ss, p3)) => match expect(ts, p3, SpecToken::BraceRight) {
                        Err(e) => Err(e),
                        Ok(p4) => Ok((SpecIfBlock { id, condtype, condition: dummy_condition(), statements: ss }, p4)),
                    },
                },
            },
        }
    } else {
        match spec_statements(ts, pos) {
            Err(e) => Err(e),
            Ok((ss, p)) => Ok((SpecIfBlock { id, condtype, condition: dummy_condition(), statements: ss }, p)),
        }
    }
}

/// The kind of block that starts with token `t` (0: no block starts with `t`).
pub open spec fn block_kind(t: SpecToken) -> u64 {
    if t is If {
        1
    } else if t is Else {
        2
    } else if t is Identifier {
        3
    } else {
        0
    }
}

/// The number of a block of kind `kind` after `ifid` blocks: blocks are numbered from 1 in
/// order, so an `else` block is numbered one above the `if` block before it.
pub open spec fn block_id(kind: u64, ifid: int) -> int {
    ifid + 1
}

/// The blocks of a snippet body.  `ifid` counts the blocks so far; each block gets the next
/// number.
pub open spec fn spec_ifblocks(ts: Seq<SpecToken>, pos: int, ifid: int) -> SResult<Seq<SpecIfBlock>>
    decreases ts.len() - pos,
{
    if pos < 0 || pos >= ts.len() {
        Err(ParseError::UnexpectedEnd)
    } else {
        let kind = block_kind(ts[pos]);
        if kind == 0 {
            Ok((Seq::empty(), pos))
        } else {
            match spec_ifblock(ts, pos, block_id(kind, ifid) as u64, kind) {
                Err(e) => Err(e),
                Ok((b, p)) => if pos < p <= ts.len() {
                    prepend_list(seq![b], spec_ifblocks(ts, p, ifid + 1))
                } else {
                    Err(ParseError::UnexpectedToken(pos as usize))
                },
            }
        }
    }
}

pub open spec fn spec_type_qualifier(ts: Seq<SpecToken>, pos: int) -> SResult<TypeQualifier> {
    if pos < 0 || pos >= ts.len() {
        Err(ParseError::UnexpectedEnd)
    } else {
        match ts[pos] {
            SpecToken::Transient => Ok((TypeQualifier::Transient, pos + 1)),
            SpecToken::Persistent => Ok((TypeQualifier::Persistent, pos + 1)),
            SpecToken::Const => Ok((TypeQualifier::Const, pos + 1)),
            SpecToken::Input => Ok((TypeQualifier::Input, pos + 1)),
            SpecToken::Output => Ok((TypeQualifier::Output, pos + 1)),
            SpecToken::Global => Ok((TypeQualifier::Global, pos + 1)),
            SpecToken::Identifier(_) => Ok((TypeQualifier::Field, pos + 1)),
            _ => Err(ParseError::UnexpectedToken(pos as usize)),
        }
    }
}

/// `: name` (a packet type) or `: bit<width>` or `: bit<width>[size]`; a width must be from 1 to
/// 32.
pub open spec fn spec_type_annotation(ts: Seq<SpecToken>, pos: int, q: TypeQualifier) -> SResult<SpecVarType> {
    match expect(ts, pos, SpecToken::Colon) {
        Err(e) => Err(e),
        Ok(p1) => if p1 >= ts.len() {
            Err(ParseError::UnexpectedEnd)
        } else if !(ts[p1] is Bit) {
            match spec_identifier(ts, p1) {
                Err(e) => Err(e),
                Ok((n, p2)) => Ok((SpecVarType { var_info: SpecVarInfo::Packet(n), type_qualifier: q }, p2)),
            }
        } else {
            match expect(ts, p1 + 1, SpecToken::LessThan) {
                Err(e) => Err(e),
                Ok(p2) => match spec_value(ts, p2) {
                    Err(e) => Err(e),
                    Ok((w, p3)) => if w < 1 {
                        Err(ParseError::BitWidthZero(p2 as usize))
                    } else if w > 32 {
                        Err(ParseError::BitWidthTooLarge(p2 as usize))
                    } else {
                        match expect(ts, p3, SpecToken::GreaterThan) {
                            Err(e) => Err(e),
                            Ok(p4) => if p4 < ts.len() && ts[p4] is SquareLeft {
                                match spec_value(ts, p4 + 1) {
                                    Err(e) => Err(e),
                                    Ok((n, p5)) => match expect(ts, p5, SpecToken::SquareRight) {
                                        Err(e) => Err(e),
                                        Ok(p6) => Ok((SpecVarType { var_info: SpecVarInfo::BitArray(w, n), type_qualifier: q }, p6)),
                                    },
                                }
                            } else {
                                Ok((SpecVarType { var_info: SpecVarInfo::BitArray(w, 1), type_qualifier: q }, p4))
                            },
                        }
                    },
                },
            }
        },
    }
}

/// `value ,`
pub open spec fn spec_value_comma(ts: Seq<SpecToken>, pos: int) -> SResult<u32> {
    match spec_value(ts, pos) {
        Err(e) => Err(e),
        Ok((v, p)) => match expect(ts, p, SpecToken::Comma) {
            Err(e) => Err(e),
            Ok(q) => Ok((v, q)),
        },
    }
}

pub open spec fn spec_value_vector(ts: Seq<SpecToken>, pos: int) -> SResult<Seq<u32>> {
    many(ts, pos, |t: SpecToken| t is Value, |ts: Seq<SpecToken>, p: int| spec_value_comma(ts, p))
}

/// A single value, or `{ v1, v2, ..., }`.
pub open spec fn spec_initial_values(ts: Seq<SpecToken>, pos: int) -> SResult<Seq<u32>> {
    if pos < 0 || pos >= ts.len() {
        Err(ParseError::UnexpectedEnd)
    } else if ts[pos] is Value {
        match spec_value(ts, pos) {
            Err(e) => Err(e),
            Ok((v, p)) => Ok((seq![v], p)),
        }
    } else if ts[pos] is BraceLeft {
        match spec_value_vector(ts, pos + 1) {
            Err(e) => Err(e),
            Ok((vs, p)) => match expect(ts, p, SpecToken::BraceRight) {
                Err(e) => Err(e),
                Ok(q) => Ok((vs, q)),
            },
        }
    } else {
        Err(ParseError::UnexpectedToken(pos as usize))
    }
}

pub open spec fn two_pow(n: nat) -> nat
    decreases n,
{
    if n == 0 {
        1
    } else {
        2 * two_pow((n - 1) as nat)
    }
}

/// `v` is representable as a bit vector of width `w`: `v <= 2^w - 1`.
pub open spec fn fits(v: u32, w: u32) -> bool {
    (v as nat) < two_pow(w as nat)
}

/// The semantic checks on a declaration's initial values: each fits the bit width, and
/// `const` and `persistent` arrays have one initial value per element.
pub open spec fn initial_values_error(vt: SpecVarType, vals: Seq<u32>, pos: int) -> Option<ParseError> {
    match vt.var_info {
        SpecVarInfo::BitArray(w, n) => if exists|i: int| 0 <= i < vals.len() && !fits(#[trigger] vals[i], w) {
            Some(ParseError::ValueOutOfRange(pos as usize))
        } else if (vt.type_qualifier == TypeQualifier::Const || vt.type_qualifier == TypeQualifier::Persistent)
            && vals.len() != n {
            Some(ParseError::WrongValueCount(pos as usize))
        } else {
            None
        },
        SpecVarInfo::Packet(_) => None,
    }
}

/// `qualifier name : type ;` or `qualifier name : type = initial_values ;`
pub open spec fn spec_variable_decl(ts: Seq<SpecToken>, pos: int) -> SResult<SpecVariableDecl> {
    match spec_type_qualifier(ts, pos) {
        Err(e) => Err(e),
        Ok((q, p1)) => match spec_identifier(ts, p1) {
            Err(e) => Err(e),
            Ok((n, p2)) => match spec_type_annotation(ts, p2, q) {
                Err(e) => Err(e),
                Ok((vt, p3)) => if p3 >= ts.len() {
                    Err(ParseError::UnexpectedEnd)
                } else {
                    let vals_r: SResult<Seq<u32>> = if ts[p3] is Assign {
                        spec_initial_values(ts, p3 + 1)
                    } else {
                        Ok((Seq::empty(), p3))
                    };
                    match vals_r {
                        Err(e) => Err(e),
                        Ok((vals, p4)) => match expect(ts, p4, SpecToken::SemiColon) {
                            Err(e) => Err(e),
                            Ok(p5) => match initial_values_error(vt, vals, pos) {
                                Some(e) => Err(e),
                                None => Ok((SpecVariableDecl { identifier: n, initial_values: vals, var_type: vt }, p5)),
                            },
                        },
                    }
                },
            },
        },
    }
}

pub open spec fn starts_decl(t: SpecToken) -> bool {
    t is Persistent || t is Transient || t is Const || t is Input || t is Output || t is Packet
}

pub open spec fn spec_variable_decls(ts: Seq<SpecToken>, pos: int) -> SResult<Seq<SpecVariableDecl>> {
    many(ts, pos, |t: SpecToken| starts_decl(t), |ts: Seq<SpecToken>, p: int| spec_variable_decl(ts, p))
}

pub open spec fn spec_globals(ts: Seq<SpecToken>, pos: int) -> SResult<Seq<SpecVariableDecl>> {
    many(ts, pos, |t: SpecToken| t is Global, |ts: Seq<SpecToken>, p: int| spec_variable_decl(ts, p))
}

/// `name : type ;`
pub open spec fn spec_packet_field(ts: Seq<SpecToken>, pos: int) -> SResult<SpecPacketField> {
    match spec_identifier(ts, pos) {
        Err(e) => Err(e),
        Ok((n, p1)) => match spec_type_annotation(ts, p1, TypeQualifier::Field) {
            Err(e) => Err(e),
            Ok((vt, p2)) => match expect(ts, p2, SpecToken::SemiColon) {
                Err(e) => Err(e),
                Ok(p3) => Ok((SpecPacketField { identifier: n, var_type: vt }, p3)),
            },
        },
    }
}

pub open spec fn spec_packet_fields(ts: Seq<SpecToken>, pos: int) -> SResult<Seq<SpecPacketField>> {
    many(ts, pos, |t: SpecToken| t is Identifier, |ts: Seq<SpecToken>, p: int| spec_packet_field(ts, p))
}

/// `field : value`, or nothing when the tokens have run out.
pub open spec fn spec_parser_condition(ts: Seq<SpecToken>, pos: int) -> SResult<SpecParserCondition> {
    if pos >= ts.len() {
        Ok((SpecParserCondition::Empty, pos))
    } else {
        match spec_identifier(ts, pos) {
            Err(e) => Err(e),
            Ok((f, p1)) => match expect(ts, p1, SpecToken::Colon) {
                Err(e) => Err(e),
                Ok(p2) => match spec_value(ts, p2) {
                    Err(e) => Err(e),
                    Ok((v, p3)) => Ok((SpecParserCondition::ParserCondition(f, v), p3)),
                },
            },
        }
    }
}

/// `packet name : base ( condition ) { fields }`
pub open spec fn spec_packet(ts: Seq<SpecToken>, pos: int) -> SResult<SpecPacket> {
    match expect(ts, pos, SpecToken::Packet) {
        Err(e) => Err(e),
        Ok(p1) => match spec_identifier(ts, p1) {
            Err(e) => Err(e),
            Ok((id, p2)) => match expect(ts, p2, SpecToken::Colon) {
                Err(e) => Err(e),
                Ok(p3) => match spec_identifier(ts, p3) {
                    Err(e) => Err(e),
                    Ok((base, p4)) => match expect(ts, p4, SpecToken::ParenLeft) {
                        Err(e) => Err(e),
                        Ok(p5) => match spec_parser_condition(ts, p5) {
                            Err(e) => Err(e),
                            Ok((c, p6)) => match expect(ts, p6, SpecToken::ParenRight) {
                                Err(e) => Err(e),
                                Ok(p7) => match expect(ts, p7, SpecToken::BraceLeft) {
                                    Err(e) => Err(e),
                                    Ok(p8) => match spec_packet_fields(ts, p8) {
                                        Err(e) => Err(e),
                                        Ok((fs, p9)) => match expect(ts, p9, SpecToken::BraceRight) {
                                            Err(e) => Err(e),
                                            Ok(p10) => Ok((SpecPacket {
                                                packet_id: id,
                                                packet_base: base,
                                                packet_fields: fs,
                                                packet_parser_condition: c,
                                            }, p10)),
                                        },
                                    },
                                },
                            },
                        },
                    },
                },
            },
        },
    }
}

pub open spec fn spec_packets(ts: Seq<SpecToken>, pos: int) -> SResult<Seq<SpecPacket>> {
    many(ts, pos, |t: SpecToken| t is Packet, |ts: Seq<SpecToken>, p: int| spec_packet(ts, p))
}

/// The device named by an optional `@ device` annotation, and the position of `snippet`.
pub open spec fn spec_device(ts: Seq<SpecToken>, pos: int) -> SResult<Seq<char>> {
    if pos < 0 || pos >= ts.len() {
        Err(ParseError::UnexpectedEnd)
    } else if ts[pos] is Snippet {
        Ok((Seq::empty(), pos + 1))
    } else if ts[pos] is Annotation {
        match spec_identifier(ts, pos + 1) {
            Err(e) => Err(e),
            Ok((d, p)) => match expect(ts, p, SpecToken::Snippet) {
                Err(e) => Err(e),
                Ok(q) => Ok((d, q)),
            },
        }
    } else {
        Ok((Seq::empty(), pos))
    }
}

/// `[@ device] snippet name ( ) { declarations blocks }`
pub open spec fn spec_snippet(ts: Seq<SpecToken>, pos: int) -> SResult<SpecSnippet> {
    match spec_device(ts, pos) {
        Err(e) => Err(e),
        Ok((d, p1)) => match spec_identifier(ts, p1) {
            Err(e) => Err(e),
            Ok((id, p2)) => match expect(ts, p2, SpecToken::ParenLeft) {
                Err(e) => Err(e),
                Ok(p3) => match expect(ts, p3, SpecToken::ParenRight) {
                    Err(e) => Err(e),
                    Ok(p4) => match expect(ts, p4, SpecToken::BraceLeft) {
                        Err(e) => Err(e),
                        Ok(p5) => match spec_variable_decls(ts, p5) {
                            Err(e) => Err(e),
                            Ok((ds, p6)) => match spec_ifblocks(ts, p6, 0) {
                                Err(e) => Err(e),
                                Ok((bs, p7)) => match expect(ts, p7, SpecToken::BraceRight) {
                                    Err(e) => Err(e),
                                    Ok(p8) => Ok((SpecSnippet {
                                        snippet_id: id,
                                        device_id: d,
                                        variable_decls: ds,
                                        ifblocks: bs,
                                    }, p8)),
                                },
                            },
                        },
                    },
                },
            },
        },
    }
}

pub open spec fn spec_snippets(ts: Seq<SpecToken>, pos: int) -> SResult<Seq<SpecSnippet>> {
    many(ts, pos, |t: SpecToken| t is Snippet || t is Annotation, |ts: Seq<SpecToken>, p: int| spec_snippet(ts, p))
}

/// `from -> to ,`
pub open spec fn spec_variable_pair(ts: Seq<SpecToken>, pos: int) -> SResult<(Seq<char>, Seq<char>)> {
    match spec_identifier(ts, pos) {
        Err(e) => Err(e),
        Ok((a, p1)) => match expect(ts, p1, SpecToken::Arrow) {
            Err(e) => Err(e),
            Ok(p2) => match spec_identifier(ts, p2) {
                Err(e) => Err(e),
                Ok((b, p3)) => match expect(ts, p3, SpecToken::Comma) {
                    Err(e) => Err(e),
                    Ok(p4) => Ok(((a, b), p4)),
                },
            },
        },
    }
}

pub open spec fn spec_variable_pairs(ts: Seq<SpecToken>, pos: int) -> SResult<Seq<(Seq<char>, Seq<char>)>> {
    many(ts, pos, |t: SpecToken| t is Identifier, |ts: Seq<SpecToken>, p: int| spec_variable_pair(ts, p))
}

/// `( from , to )` optionally followed by `: a -> b, c -> d, ...`
pub open spec fn spec_connection(ts: Seq<SpecToken>, pos: int) -> SResult<SpecConnection> {
    match expect(ts, pos, SpecToken::ParenLeft) {
        Err(e) => Err(e),
        Ok(p1) => match spec_identifier(ts, p1) {
            Err(e) => Err(e),
            Ok((a, p2)) => match expect(ts, p2, SpecToken::Comma) {
                Err(e) => Err(e),
                Ok(p3) => match spec_identifier(ts, p3) {
                    Err(e) => Err(e),
                    Ok((b, p4)) => match expect(ts, p4, SpecToken::ParenRight) {
                        Err(e) => Err(e),
                        Ok(p5) => if p5 < ts.len() && ts[p5] is Colon {
                            match spec_variable_pairs(ts, p5 + 1) {
                                Err(e) => Err(e),
                                Ok((vps, p6)) => Ok((SpecConnection { from_snippet: a, to_snippet: b, variable_pairs: vps }, p6)),
                            }
                        } else {
                            Ok((SpecConnection { from_snippet: a, to_snippet: b, variable_pairs: Seq::empty() }, p5))
                        },
                    },
                },
            },
        },
    }
}

/// Connections run to the end of the tokens.
pub open spec fn spec_connections(ts: Seq<SpecToken>, pos: int) -> SResult<Seq<SpecConnection>> {
    many(ts, pos, |t: SpecToken| true, |ts: Seq<SpecToken>, p: int| spec_connection(ts, p))
}

/// A program: globals, packets, snippets, then connections up to the end of the tokens.
pub open spec fn spec_prog(ts: Seq<SpecToken>) -> Result<SpecProg, ParseError> {
    match spec_globals(ts, 0) {
        Err(e) => Err(e),
        Ok((gs, p1)) => match spec_packets(ts, p1) {
            Err(e) => Err(e),
            Ok((ps, p2)) => match spec_snippets(ts, p2) {
                Err(e) => Err(e),
                Ok((ss, p3)) => match spec_connections(ts, p3) {
                    Err(e) => Err(e),
                    Ok((cs, p4)) => Ok(SpecProg { globals: gs, packets: ps, snippets: ss, connections: cs }),
                },
            },
        },
    }
}

// =============================================================================================
// Executable parser
// =============================================================================================

fn parse_identifier(ts: &Vec<Token>, pos: usize) -> (r: Result<(Identifier, usize), ParseError>)
    ensures
        parsed(r, spec_identifier(tokens_view(ts@), pos as int)),
        advanced(r, pos, ts@.len() as int),
{
    if pos >= ts.len() {
        return Err(ParseError::UnexpectedEnd);
    }
    match &ts[pos] {
        Token::Identifier(n) => Ok((Identifier { id_name: n.clone() }, pos + 1)),
        _ => Err(ParseError::UnexpectedToken(pos)),
    }
}

fn parse_value(ts: &Vec<Token>, pos: usize) -> (r: Result<(Value, usize), ParseError>)
    ensures
        parsed(r, spec_value(tokens_view(ts@), pos as int)),
        advanced(r, pos, ts@.len() as int),
{
    if pos >= ts.len() {
        return Err(ParseError::UnexpectedEnd);
    }
    match &ts[pos] {
        Token::Value(v) => Ok((Value { value: *v }, pos + 1)),
        _ => Err(ParseError::UnexpectedToken(pos)),
    }
}

fn parse_operand(ts: &Vec<Token>, pos: usize) -> (r: Result<(Operand, usize), ParseError>)
    ensures
        parsed(r, spec_operand(tokens_view(ts@), pos as int)),
        advanced(r, pos, ts@.len() as int),
    decreases ts@.len() - pos, 1int,
{
    if pos >= ts.len() {
        return Err(ParseError::UnexpectedEnd);
    }
    match &ts[pos] {
        Token::Identifier(_) => {
            let (l, p) = parse_lvalue(ts, pos)?;
            Ok((Operand::LValue(l), p))
        },
        Token::Value(v) => Ok((Operand::Value(Value { value: *v }), pos + 1)),
        _ => Err(ParseError::UnexpectedToken(pos)),
    }
}

fn parse_lvalue(ts: &Vec<Token>, pos: usize) -> (r: Result<(LValue, usize), ParseError>)
    ensures
        parsed(r, spec_lvalue(tokens_view(ts@), pos as int)),
        advanced(r, pos, ts@.len() as int),
    decreases ts@.len() - pos, 0int,
{
    if pos >= ts.len() {
        return Err(ParseError::UnexpectedEnd);
    }
    match &ts[pos] {
        Token::Identifier(n) => {
            let id = Identifier { id_name: n.clone() };
            if pos + 1 >= ts.len() || !(matches!(ts[pos + 1], Token::SquareLeft) || matches!(ts[pos + 1], Token::Dot)) {
                Ok((LValue::Scalar(id), pos + 1))
            } else if matches!(ts[pos + 1], Token::Dot) {
                let (f, p) = parse_identifier(ts, pos + 2)?;
                Ok((LValue::Field(id, f), p))
            } else {
                let (a, p) = parse_operand(ts, pos + 2)?;
                let q = match_token(ts, p, Token::SquareRight)?;
                Ok((LValue::Array(id, Box::new(a)), q))
            }
        },
        _ => Err(ParseError::UnexpectedToken(pos)),
    }
}

fn get_bin_op(t: &Token) -> (r: Option<BinOpType>)
    ensures r == spec_binop(t@),
{
    match t {
        Token::BooleanAnd => Some(BinOpType::BooleanAnd),
        Token::BooleanOr => Some(BinOpType::BooleanOr),
        Token::Plus => Some(BinOpType::Plus),
        Token::Minus => Some(BinOpType::Minus),
        Token::Mul => Some(BinOpType::Mul),
        Token::Div => Some(BinOpType::Div),
        Token::Modulo => Some(BinOpType::Modulo),
        Token::Equal => Some(BinOpType::Equal),
        Token::NotEqual => Some(BinOpType::NotEqual),
        Token::LTEQOp => Some(BinOpType::LTEQOp),
        Token::GTEQOp => Some(BinOpType::GTEQOp),
        Token::LessThan => Some(BinOpType::LessThan),
        Token::GreaterThan => Some(BinOpType::GreaterThan),
        _ => None,
    }
}

fn parse_expr_right(ts: &Vec<Token>, pos: usize) -> (r: Result<(ExprRight, usize), ParseError>)
    requires pos <= ts@.len(),
    ensures
        parsed(r, spec_expr_right(tokens_view(ts@), pos as int)),
        moved(r, pos, ts@.len() as int),
{
    if pos >= ts.len() {
        return Ok((ExprRight::Empty(), pos));
    }
    let op = get_bin_op(&ts[pos]);
    let is_cond = matches!(ts[pos], Token::Cond);
    if op.is_none() && !is_cond {
        return Ok((ExprRight::Empty(), pos));
    }
    match op {
        Some(b) => {
            let (o, p) = parse_operand(ts, pos + 1)?;
            Ok((ExprRight::BinOp(b, o), p))
        },
        None => {
            let (a, p) = parse_operand(ts, pos + 1)?;
            let q = match_token(ts, p, Token::Colon)?;
            let (b, r) = parse_operand(ts, q)?;
            Ok((ExprRight::Cond(a, b), r))
        },
    }
}

fn parse_expr(ts: &Vec<Token>, pos: usize) -> (r: Result<(Expr, usize), ParseError>)
    ensures
        parsed(r, spec_expr(tokens_view(ts@), pos as int)),
        advanced(r, pos, ts@.len() as int),
{
    if pos >= ts.len() {
        return Err(ParseError::UnexpectedEnd);
    }
    let (op1, p) = parse_operand(ts, pos)?;
    let (expr_right, q) = parse_expr_right(ts, p)?;
    Ok((Expr { op1, expr_right }, q))
}

fn parse_condition(ts: &Vec<Token>, pos: usize) -> (r: Result<(Condition, usize), ParseError>)
    ensures
        parsed(r, spec_expr(tokens_view(ts@), pos as int)),
        advanced(r, pos, ts@.len() as int),
{
    let (expr, p) = parse_expr(ts, pos)?;
    Ok((Condition { expr }, p))
}

fn parse_statement(ts: &Vec<Token>, pos: usize) -> (r: Result<(Statement, usize), ParseError>)
    ensures
        parsed(r, spec_statement(tokens_view(ts@), pos as int)),
        advanced(r, pos, ts@.len() as int),
{
    let (lvalue, p1) = parse_lvalue(ts, pos)?;
    let p2 = match_token(ts, p1, Token::Assign)?;
    let (expr, p3) = parse_expr(ts, p2)?;
    let p4 = match_token(ts, p3, Token::SemiColon)?;
    Ok((Statement { lvalue, expr }, p4))
}

fn parse_statements(ts: &Vec<Token>, pos: usize) -> (r: Result<(Statements, usize), ParseError>)
    requires pos <= ts@.len(),
    ensures
        parsed(r, spec_statements(tokens_view(ts@), pos as int)),
        moved(r, pos, ts@.len() as int),
        (pos < ts@.len() && ts@[pos as int] is Identifier) ==> advanced(r, pos, ts@.len() as int),
{
    let ghost tv = tokens_view(ts@);
    let mut stmt_vector: Vec<Statement> = Vec::new();
    let mut p: usize = pos;
    proof {
        lemma_prepend_empty(spec_statements(tv, pos as int));
    }
    loop
        invariant
            tv == tokens_view(ts@),
            pos <= p <= ts@.len(),
            spec_statements(tv, pos as int) == prepend_list(vec_view(stmt_vector@), spec_statements(tv, p as int)),
        decreases ts@.len() - p,
    {
        if p < ts.len() && matches!(ts[p], Token::Identifier(_)) {
            let (s, q) = parse_statement(ts, p)?;
            proof {
                lemma_prepend_push(vec_view(stmt_vector@), s@, spec_statements(tv, q as int));
                lemma_vec_view_push(stmt_vector@, s);
            }
            stmt_vector.push(s);
            p = q;
        } else {
            assert(vec_view(stmt_vector@) + Seq::<SpecStatement>::empty() =~= vec_view(stmt_vector@));
            return Ok((Statements { stmt_vector }, p));
        }
    }
}

fn dummy_condition_exec() -> (c: Condition)
    ensures c@ == dummy_condition(),
{
    Condition { expr: Expr { op1: Operand::Value(Value { value: 1 }), expr_right: ExprRight::Empty() } }
}

fn parse_ifblock(ts: &Vec<Token>, pos: usize, id: u64, condtype: u64) -> (r: Result<(IfBlock, usize), ParseError>)
    requires pos <= ts@.len(),
    ensures
        parsed(r, spec_ifblock(tokens_view(ts@), pos as int, id, condtype)),
        moved(r, pos, ts@.len() as int),
        (condtype == 1 || condtype == 2) ==> advanced(r, pos, ts@.len() as int),
        (pos < ts@.len() && ts@[pos as int] is Identifier) ==> advanced(r, pos, ts@.len() as int),
{
    if condtype == 1 {
        let p1 = match_token(ts, pos, Token::If)?;
        let p2 = match_token(ts, p1, Token::ParenLeft)?;
        let (condition, p3) = parse_condition(ts, p2)?;
        let p4 = match_token(ts, p3, Token::ParenRight)?;
        let p5 = match_token(ts, p4, Token::BraceLeft)?;
        let (statements, p6) = parse_statements(ts, p5)?;
        let p7 = match_token(ts, p6, Token::BraceRight)?;
        Ok((IfBlock { id, condtype, condition, statements }, p7))
    } else if condtype == 2 {
        let p1 = match_token(ts, pos, Token::Else)?;
        let p2 = match_token(ts, p1, Token::BraceLeft)?;
        let (statements, p3) = parse_statements(ts, p2)?;
        let p4 = match_token(ts, p3, Token::BraceRight)?;
        Ok((IfBlock { id, condtype, condition: dummy_condition_exec(), statements }, p4))
    } else {
        let (statements, p) = parse_statements(ts, pos)?;
        Ok((IfBlock { id, condtype, condition: dummy_condition_exec(), statements }, p))
    }
}

#[verifier::rlimit(40)]
fn parse_ifblocks(ts: &Vec<Token>, pos: usize, ifid: u64) -> (r: Result<(IfBlocks, usize), ParseError>)
    requires pos <= ts@.len(), ifid <= pos,
    ensures
        parsed(r, spec_ifblocks(tokens_view(ts@), pos as int, ifid as int)),
        moved(r, pos, ts@.len() as int),
{
    let ghost tv = tokens_view(ts@);
    let mut ifblock_vector: Vec<IfBlock> = Vec::new();
    let mut p: usize = pos;
    let mut n: u64 = ifid;
    proof {
        lemma_prepend_empty(spec_ifblocks(tv, pos as int, ifid as int));
    }
    loop
        invariant
            tv == tokens_view(ts@),
            pos <= p <= ts@.len(),
            n <= p,
            spec_ifblocks(tv, pos as int, ifid as int)
                == prepend_list(vec_view(ifblock_vector@), spec_ifblocks(tv, p as int, n as int)),
        decreases ts@.len() - p,
    {
        if p >= ts.len() {
            return Err(ParseError::UnexpectedEnd);
        }
        let kind: u64 = match &ts[p] {
            Token::If => 1,
            Token::Else => 2,
            Token::Identifier(_) => 3,
            _ => 0,
        };
        assert(kind == block_kind(tv[p as int]));
        if kind == 0 {
            assert(vec_view(ifblock_vector@) + Seq::<SpecIfBlock>::empty() =~= vec_view(ifblock_vector@));
            return Ok((IfBlocks { ifblock_vector }, p));
        }
        let id: u64 = n + 1;
        let (b, q) = parse_ifblock(ts, p, id, kind)?;
        if kind == 3 {
            // a run of statements starts with an identifier, so at least one statement was read
            assert(q > p);
        }
        assert(spec_ifblocks(tv, p as int, n as int) == prepend_list(seq![b@], spec_ifblocks(tv, q as int, n + 1)));
        proof {
            lemma_prepend_push(vec_view(ifblock_vector@), b@, spec_ifblocks(tv, q as int, n + 1));
            lemma_vec_view_push(ifblock_vector@, b);
        }
        ifblock_vector.push(b);
        p = q;
        n = n + 1;
    }
}

fn parse_type_qualifier(ts: &Vec<Token>, pos: usize) -> (r: Result<(TypeQualifier, usize), ParseError>)
    ensures
        parsed(r, spec_type_qualifier(tokens_view(ts@), pos as int)),
        advanced(r, pos, ts@.len() as int),
{
    if pos >= ts.len() {
        return Err(ParseError::UnexpectedEnd);
    }
    let q = match &ts[pos] {
        Token::Transient => TypeQualifier::Transient,
        Token::Persistent => TypeQualifier::Persistent,
        Token::Const => TypeQualifier::Const,
        Token::Input => TypeQualifier::Input,
        Token::Output => TypeQualifier::Output,
        Token::Global => TypeQualifier::Global,
        Token::Identifier(_) => TypeQualifier::Field,
        _ => {
            return Err(ParseError::UnexpectedToken(pos));
        },
    };
    Ok((q, pos + 1))
}

fn parse_type_annotation(ts: &Vec<Token>, pos: usize, type_qualifier: TypeQualifier) -> (r: Result<(VarType, usize), ParseError>)
    ensures
        parsed(r, spec_type_annotation(tokens_view(ts@), pos as int, type_qualifier)),
        advanced(r, pos, ts@.len() as int),
{
    let p1 = match_token(ts, pos, Token::Colon)?;
    if p1 >= ts.len() {
        return Err(ParseError::UnexpectedEnd);
    }
    if !matches!(ts[p1], Token::Bit) {
        let (identifier, p2) = parse_identifier(ts, p1)?;
        return Ok((VarType { var_info: VarInfo::Packet(identifier), type_qualifier }, p2));
    }
    let p2 = match_token(ts, p1 + 1, Token::LessThan)?;
    let (w, p3) = parse_value(ts, p2)?;
    let bit_width = w.value;
    if bit_width < 1 {
        return Err(ParseError::BitWidthZero(p2));
    }
    if bit_width > 32 {
        return Err(ParseError::BitWidthTooLarge(p2));
    }
    let p4 = match_token(ts, p3, Token::GreaterThan)?;
    if p4 < ts.len() && matches!(ts[p4], Token::SquareLeft) {
        let (n, p5) = parse_value(ts, p4 + 1)?;
        let p6 = match_token(ts, p5, Token::SquareRight)?;
        Ok((VarType { var_info: VarInfo::BitArray(bit_width, n.value), type_qualifier }, p6))
    } else {
        Ok((VarType { var_info: VarInfo::BitArray(bit_width, 1), type_qualifier }, p4))
    }
}

fn parse_value_vector(ts: &Vec<Token>, pos: usize) -> (r: Result<(Vec<Value>, usize), ParseError>)
    requires pos <= ts@.len(),
    ensures
        parsed_seq(r, spec_value_vector(tokens_view(ts@), pos as int)),
        moved(r, pos, ts@.len() as int),
{
    let ghost tv = tokens_view(ts@);
    let mut value_vector: Vec<Value> = Vec::new();
    let mut p: usize = pos;
    proof {
        lemma_prepend_empty(spec_value_vector(tv, pos as int));
    }
    loop
        invariant
            tv == tokens_view(ts@),
            pos <= p <= ts@.len(),
            spec_value_vector(tv, pos as int) == prepend_list(vec_view(value_vector@), spec_value_vector(tv, p as int)),
        decreases ts@.len() - p,
    {
        if p < ts.len() && matches!(ts[p], Token::Value(_)) {
            let (v, p1) = parse_value(ts, p)?;
            let q = match_token(ts, p1, Token::Comma)?;
            proof {
                lemma_prepend_push(vec_view(value_vector@), v@, spec_value_vector(tv, q as int));
                lemma_vec_view_push(value_vector@, v);
            }
            value_vector.push(v);
            p = q;
        } else {
            assert(vec_view(value_vector@) + Seq::<u32>::empty() =~= vec_view(value_vector@));
            return Ok((value_vector, p));
        }
    }
}

fn parse_initial_values(ts: &Vec<Token>, pos: usize) -> (r: Result<(Vec<Value>, usize), ParseError>)
    ensures
        parsed_seq(r, spec_initial_values(tokens_view(ts@), pos as int)),
        advanced(r, pos, ts@.len() as int),
{
    if pos >= ts.len() {
        return Err(ParseError::UnexpectedEnd);
    }
    if matches!(ts[pos], Token::Value(_)) {
        let (v, p) = parse_value(ts, pos)?;
        let mut singleton_vector: Vec<Value> = Vec::new();
        singleton_vector.push(v);
        assert(vec_view(singleton_vector@) =~= seq![v@]);
        Ok((singleton_vector, p))
    } else if matches!(ts[pos], Token::BraceLeft) {
        let (value_vector, p) = parse_value_vector(ts, pos + 1)?;
        let q = match_token(ts, p, Token::BraceRight)?;
        Ok((value_vector, q))
    } else {
        Err(ParseError::UnexpectedToken(pos))
    }
}

proof fn lemma_two_pow_monotone(a: nat, b: nat)
    requires a <= b,
    ensures two_pow(a) <= two_pow(b),
    decreases b - a,
{
    if a < b {
        lemma_two_pow_monotone(a, (b - 1) as nat);
    }
}

proof fn lemma_two_pow_32()
    ensures two_pow(32) == 4294967296,
{
    reveal_with_fuel(two_pow, 33);
}

/// Whether `v <= 2^w - 1`.
fn value_fits(v: u32, w: u32) -> (b: bool)
    ensures b == fits(v, w),
{
    proof {
        lemma_two_pow_32();
    }
    if w >= 32 {
        proof {
            lemma_two_pow_monotone(32, w as nat);
        }
        return true;
    }
    let mut p: u64 = 1;
    let mut i: u32 = 0;
    while i < w
        invariant
            i <= w < 32,
            p == two_pow(i as nat),
            two_pow(32) == 4294967296,
        decreases w - i,
    {
        proof {
            lemma_two_pow_monotone(i as nat, 32);
        }
        p = p * 2;
        i = i + 1;
    }
    (v as u64) < p
}

fn check_initial_values(var_type: &VarType, initial_values: &Vec<Value>, pos: usize) -> (r: Option<ParseError>)
    ensures r == initial_values_error(var_type@, vec_view(initial_values@), pos as int),
{
    match &var_type.var_info {
        VarInfo::BitArray(bit_width, var_size) => {
            let ghost vals = vec_view(initial_values@);
            let mut i: usize = 0;
            while i < initial_values.len()
                invariant
                    vals == vec_view(initial_values@),
                    var_type@.var_info == SpecVarInfo::BitArray(*bit_width, *var_size),
                    i <= initial_values@.len(),
                    forall|k: int| 0 <= k < i ==> fits(#[trigger] vals[k], *bit_width),
                decreases initial_values@.len() - i,
            {
                if !value_fits(initial_values[i].value, *bit_width) {
                    assert(vals.len() == initial_values@.len());
                    assert(vals[i as int] == initial_values@[i as int].value);
                    assert(!fits(vals[i as int], *bit_width));
                    assert(var_type@.var_info == SpecVarInfo::BitArray(*bit_width, *var_size));
                    assert(exists|k: int| 0 <= k < vals.len() && !fits(#[trigger] vals[k], *bit_width));
                    return Some(ParseError::ValueOutOfRange(pos));
                }
                i = i + 1;
            }
            let q = var_type.type_qualifier;
            if (q == TypeQualifier::Const || q == TypeQualifier::Persistent)
                && initial_values.len() != *var_size as usize {
                return Some(ParseError::WrongValueCount(pos));
            }
            None
        },
        VarInfo::Packet(_) => None,
    }
}

fn parse_variable_decl(ts: &Vec<Token>, pos: usize) -> (r: Result<(VariableDecl, usize), ParseError>)
    ensures
        parsed(r, spec_variable_decl(tokens_view(ts@), pos as int)),
        advanced(r, pos, ts@.len() as int),
{
    let (type_qualifier, p1) = parse_type_qualifier(ts, pos)?;
    let (identifier, p2) = parse_identifier(ts, p1)?;
    let (var_type, p3) = parse_type_annotation(ts, p2, type_qualifier)?;
    if p3 >= ts.len() {
        return Err(ParseError::UnexpectedEnd);
    }
    let (initial_values, p4) = if matches!(ts[p3], Token::Assign) {
        parse_initial_values(ts, p3 + 1)?
    } else {
        let no_values: Vec<Value> = Vec::new();
        assert(vec_view(no_values@) =~= Seq::<u32>::empty());
        (no_values, p3)
    };
    let p5 = match_token(ts, p4, Token::SemiColon)?;
    match check_initial_values(&var_type, &initial_values, pos) {
        Some(e) => Err(e),
        None => Ok((VariableDecl { identifier, initial_values, var_type }, p5)),
    }
}

fn parse_variable_decls(ts: &Vec<Token>, pos: usize) -> (r: Result<(VariableDecls, usize), ParseError>)
    requires pos <= ts@.len(),
    ensures
        parsed(r, spec_variable_decls(tokens_view(ts@), pos as int)),
        moved(r, pos, ts@.len() as int),
{
    let ghost tv = tokens_view(ts@);
    let mut decl_vector: Vec<VariableDecl> = Vec::new();
    let mut p: usize = pos;
    proof {
        lemma_prepend_empty(spec_variable_decls(tv, pos as int));
    }
    loop
        invariant
            tv == tokens_view(ts@),
            pos <= p <= ts@.len(),
            spec_variable_decls(tv, pos as int) == prepend_list(vec_view(decl_vector@), spec_variable_decls(tv, p as int)),
        decreases ts@.len() - p,
    {
        let is_decl = p < ts.len() && match &ts[p] {
            Token::Persistent | Token::Transient | Token::Const | Token::Input | Token::Output | Token::Packet => true,
            _ => false,
        };
        if is_decl {
            let (d, q) = parse_variable_decl(ts, p)?;
            proof {
                lemma_prepend_push(vec_view(decl_vector@), d@, spec_variable_decls(tv, q as int));
                lemma_vec_view_push(decl_vector@, d);
            }
            decl_vector.push(d);
            p = q;
        } else {
            assert(vec_view(decl_vector@) + Seq::<SpecVariableDecl>::empty() =~= vec_view(decl_vector@));
            return Ok((VariableDecls { decl_vector }, p));
        }
    }
}

fn parse_globals(ts: &Vec<Token>, pos: usize) -> (r: Result<(Globals, usize), ParseError>)
    requires pos <= ts@.len(),
    ensures
        parsed(r, spec_globals(tokens_view(ts@), pos as int)),
        moved(r, pos, ts@.len() as int),
{
    let ghost tv = tokens_view(ts@);
    let mut global_vector: Vec<VariableDecl> = Vec::new();
    let mut p: usize = pos;
    proof {
        lemma_prepend_empty(spec_globals(tv, pos as int));
    }
    loop
        invariant
            tv == tokens_view(ts@),
            pos <= p <= ts@.len(),
            spec_globals(tv, pos as int) == prepend_list(vec_view(global_vector@), spec_globals(tv, p as int)),
        decreases ts@.len() - p,
    {
        if p < ts.len() && matches!(ts[p], Token::Global) {
            let (d, q) = parse_variable_decl(ts, p)?;
            proof {
                lemma_prepend_push(vec_view(global_vector@), d@, spec_globals(tv, q as int));
                lemma_vec_view_push(global_vector@, d);
            }
            global_vector.push(d);
            p = q;
        } else {
            assert(vec_view(global_vector@) + Seq::<SpecVariableDecl>::empty() =~= vec_view(global_vector@));
            return Ok((Globals { global_vector }, p));
        }
    }
}

fn parse_packet_field(ts: &Vec<Token>, pos: usize) -> (r: Result<(PacketField, usize), ParseError>)
    ensures
        parsed(r, spec_packet_field(tokens_view(ts@), pos as int)),
        advanced(r, pos, ts@.len() as int),
{
    let (identifier, p1) = parse_identifier(ts, pos)?;
    let (var_type, p2) = parse_type_annotation(ts, p1, TypeQualifier::Field)?;
    let p3 = match_token(ts, p2, Token::SemiColon)?;
    Ok((PacketField { identifier, var_type }, p3))
}

fn parse_packet_fields(ts: &Vec<Token>, pos: usize) -> (r: Result<(PacketFields, usize), ParseError>)
    requires pos <= ts@.len(),
    ensures
        parsed(r, spec_packet_fields(tokens_view(ts@), pos as int)),
        moved(r, pos, ts@.len() as int),
{
    let ghost tv = tokens_view(ts@);
    let mut field_vector: Vec<PacketField> = Vec::new();
    let mut p: usize = pos;
    proof {
        lemma_prepend_empty(spec_packet_fields(tv, pos as int));
    }
    loop
        invariant
            tv == tokens_view(ts@),
            pos <= p <= ts@.len(),
            spec_packet_fields(tv, pos as int) == prepend_list(vec_view(field_vector@), spec_packet_fields(tv, p as int)),
        decreases ts@.len() - p,
    {
        if p < ts.len() && matches!(ts[p], Token::Identifier(_)) {
            let (f, q) = parse_packet_field(ts, p)?;
            proof {
                lemma_prepend_push(vec_view(field_vector@), f@, spec_packet_fields(tv, q as int));
                lemma_vec_view_push(field_vector@, f);
            }
            field_vector.push(f);
            p = q;
        } else {
            assert(vec_view(field_vector@) + Seq::<SpecPacketField>::empty() =~= vec_view(field_vector@));
            return Ok((PacketFields { field_vector }, p));
        }
    }
}

fn parse_packet_parser_condition(ts: &Vec<Token>, pos: usize) -> (r: Result<(PacketParserCondition, usize), ParseError>)
    requires pos <= ts@.len(),
    ensures
        parsed(r, spec_parser_condition(tokens_view(ts@), pos as int)),
        moved(r, pos, ts@.len() as int),
{
    if pos >= ts.len() {
        return Ok((PacketParserCondition::Empty(), pos));
    }
    let (field_id, p1) = parse_identifier(ts, pos)?;
    let p2 = match_token(ts, p1, Token::Colon)?;
    let (field_value, p3) = parse_value(ts, p2)?;
    Ok((PacketParserCondition::ParserCondition(field_id, field_value), p3))
}

fn parse_packet(ts: &Vec<Token>, pos: usize) -> (r: Result<(Packet, usize), ParseError>)
    ensures
        parsed(r, spec_packet(tokens_view(ts@), pos as int)),
        advanced(r, pos, ts@.len() as int),
{
    let p1 = match_token(ts, pos, Token::Packet)?;
    let (packet_id, p2) = parse_identifier(ts, p1)?;
    let p3 = match_token(ts, p2, Token::Colon)?;
    let (packet_base, p4) = parse_identifier(ts, p3)?;
    let p5 = match_token(ts, p4, Token::ParenLeft)?;
    let (packet_parser_condition, p6) = parse_packet_parser_condition(ts, p5)?;
    let p7 = match_token(ts, p6, Token::ParenRight)?;
    let p8 = match_token(ts, p7, Token::BraceLeft)?;
    let (packet_fields, p9) = parse_packet_fields(ts, p8)?;
    let p10 = match_token(ts, p9, Token::BraceRight)?;
    Ok((Packet { packet_id, packet_base, packet_fields, packet_parser_condition }, p10))
}

fn parse_packets(ts: &Vec<Token>, pos: usize) -> (r: Result<(Packets, usize), ParseError>)
    requires pos <= ts@.len(),
    ensures
        parsed(r, spec_packets(tokens_view(ts@), pos as int)),
        moved(r, pos, ts@.len() as int),
{
    let ghost tv = tokens_view(ts@);
    let mut packet_vector: Vec<Packet> = Vec::new();
    let mut p: usize = pos;
    proof {
        lemma_prepend_empty(spec_packets(tv, pos as int));
    }
    loop
        invariant
            tv == tokens_view(ts@),
            pos <= p <= ts@.len(),
            spec_packets(tv, pos as int) == prepend_list(vec_view(packet_vector@), spec_packets(tv, p as int)),
        decreases ts@.len() - p,
    {
        if p < ts.len() && matches!(ts[p], Token::Packet) {
            let (x, q) = parse_packet(ts, p)?;
            proof {
                lemma_prepend_push(vec_view(packet_vector@), x@, spec_packets(tv, q as int));
                lemma_vec_view_push(packet_vector@, x);
            }
            packet_vector.push(x);
            p = q;
        } else {
            assert(vec_view(packet_vector@) + Seq::<SpecPacket>::empty() =~= vec_view(packet_vector@));
            return Ok((Packets { packet_vector }, p));
        }
    }
}

fn parse_device(ts: &Vec<Token>, pos: usize) -> (r: Result<(Identifier, usize), ParseError>)
    ensures
        parsed(r, spec_device(tokens_view(ts@), pos as int)),
        moved(r, pos, ts@.len() as int),
{
    if pos >= ts.len() {
        return Err(ParseError::UnexpectedEnd);
    }
    if matches!(ts[pos], Token::Snippet) {
        Ok((Identifier { id_name: String::new() }, pos + 1))
    } else if matches!(ts[pos], Token::Annotation) {
        let (device, p) = parse_identifier(ts, pos + 1)?;
        let q = match_token(ts, p, Token::Snippet)?;
        Ok((device, q))
    } else {
        Ok((Identifier { id_name: String::new() }, pos))
    }
}

fn parse_snippet(ts: &Vec<Token>, pos: usize) -> (r: Result<(Snippet, usize), ParseError>)
    ensures
        parsed(r, spec_snippet(tokens_view(ts@), pos as int)),
        advanced(r, pos, ts@.len() as int),
{
    let (device_id, p1) = parse_device(ts, pos)?;
    let (snippet_id, p2) = parse_identifier(ts, p1)?;
    let p3 = match_token(ts, p2, Token::ParenLeft)?;
    let p4 = match_token(ts, p3, Token::ParenRight)?;
    let p5 = match_token(ts, p4, Token::BraceLeft)?;
    let (variable_decls, p6) = parse_variable_decls(ts, p5)?;
    let (ifblocks, p7) = parse_ifblocks(ts, p6, 0)?;
    let p8 = match_token(ts, p7, Token::BraceRight)?;
    Ok((Snippet { snippet_id, device_id, variable_decls, ifblocks }, p8))
}

fn parse_snippets(ts: &Vec<Token>, pos: usize) -> (r: Result<(Snippets, usize), ParseError>)
    requires pos <= ts@.len(),
    ensures
        parsed(r, spec_snippets(tokens_view(ts@), pos as int)),
        moved(r, pos, ts@.len() as int),
{
    let ghost tv = tokens_view(ts@);
    let mut snippet_vector: Vec<Snippet> = Vec::new();
    let mut p: usize = pos;
    proof {
        lemma_prepend_empty(spec_snippets(tv, pos as int));
    }
    loop
        invariant
            tv == tokens_view(ts@),
            pos <= p <= ts@.len(),
            spec_snippets(tv, pos as int) == prepend_list(vec_view(snippet_vector@), spec_snippets(tv, p as int)),
        decreases ts@.len() - p,
    {
        if p < ts.len() && (matches!(ts[p], Token::Snippet) || matches!(ts[p], Token::Annotation)) {
            let (x, q) = parse_snippet(ts, p)?;
            proof {
                lemma_prepend_push(vec_view(snippet_vector@), x@, spec_snippets(tv, q as int));
                lemma_vec_view_push(snippet_vector@, x);
            }
            snippet_vector.push(x);
            p = q;
        } else {
            assert(vec_view(snippet_vector@) + Seq::<SpecSnippet>::empty() =~= vec_view(snippet_vector@));
            return Ok((Snippets { snippet_vector }, p));
        }
    }
}

fn parse_variable_pairs(ts: &Vec<Token>, pos: usize) -> (r: Result<(Vec<VariablePair>, usize), ParseError>)
    requires pos <= ts@.len(),
    ensures
        parsed_seq(r, spec_variable_pairs(tokens_view(ts@), pos as int)),
        moved(r, pos, ts@.len() as int),
{
    let ghost tv = tokens_view(ts@);
    let mut variable_pairs: Vec<VariablePair> = Vec::new();
    let mut p: usize = pos;
    proof {
        lemma_prepend_empty(spec_variable_pairs(tv, pos as int));
    }
    loop
        invariant
            tv == tokens_view(ts@),
            pos <= p <= ts@.len(),
            spec_variable_pairs(tv, pos as int) == prepend_list(vec_view(variable_pairs@), spec_variable_pairs(tv, p as int)),
        decreases ts@.len() - p,
    {
        if p < ts.len() && matches!(ts[p], Token::Identifier(_)) {
            let (from_var, p1) = parse_identifier(ts, p)?;
            let p2 = match_token(ts, p1, Token::Arrow)?;
            let (to_var, p3) = parse_identifier(ts, p2)?;
            let q = match_token(ts, p3, Token::Comma)?;
            let pair = VariablePair { from_var, to_var };
            proof {
                lemma_prepend_push(vec_view(variable_pairs@), pair@, spec_variable_pairs(tv, q as int));
                lemma_vec_view_push(variable_pairs@, pair);
            }
            variable_pairs.push(pair);
            p = q;
        } else {
            assert(vec_view(variable_pairs@) + Seq::<(Seq<char>, Seq<char>)>::empty() =~= vec_view(variable_pairs@));
            return Ok((variable_pairs, p));
        }
    }
}

fn parse_connection(ts: &Vec<Token>, pos: usize) -> (r: Result<(Connection, usize), ParseError>)
    ensures
        parsed(r, spec_connection(tokens_view(ts@), pos as int)),
        advanced(r, pos, ts@.len() as int),
{
    let p1 = match_token(ts, pos, Token::ParenLeft)?;
    let (from_snippet, p2) = parse_identifier(ts, p1)?;
    let p3 = match_token(ts, p2, Token::Comma)?;
    let (to_snippet, p4) = parse_identifier(ts, p3)?;
    let p5 = match_token(ts, p4, Token::ParenRight)?;
    if p5 < ts.len() && matches!(ts[p5], Token::Colon) {
        let (variable_pairs, p6) = parse_variable_pairs(ts, p5 + 1)?;
        Ok((Connection { from_snippet, to_snippet, variable_pairs }, p6))
    } else {
        let variable_pairs: Vec<VariablePair> = Vec::new();
        assert(vec_view(variable_pairs@) =~= Seq::<(Seq<char>, Seq<char>)>::empty());
        Ok((Connection { from_snippet, to_snippet, variable_pairs }, p5))
    }
}

fn parse_connections(ts: &Vec<Token>, pos: usize) -> (r: Result<(Connections, usize), ParseError>)
    requires pos <= ts@.len(),
    ensures
        parsed(r, spec_connections(tokens_view(ts@), pos as int)),
        moved(r, pos, ts@.len() as int),
{
    let ghost tv = tokens_view(ts@);
    let mut connection_vector: Vec<Connection> = Vec::new();
    let mut p: usize = pos;
    proof {
        lemma_prepend_empty(spec_connections(tv, pos as int));
    }
    loop
        invariant
            tv == tokens_view(ts@),
            pos <= p <= ts@.len(),
            spec_connections(tv, pos as int) == prepend_list(vec_view(connection_vector@), spec_connections(tv, p as int)),
        decreases ts@.len() - p,
    {
        if p < ts.len() {
            let (x, q) = parse_connection(ts, p)?;
            proof {
                lemma_prepend_push(vec_view(connection_vector@), x@, spec_connections(tv, q as int));
                lemma_vec_view_push(connection_vector@, x);
            }
            connection_vector.push(x);
            p = q;
        } else {
            assert(vec_view(connection_vector@) + Seq::<SpecConnection>::empty() =~= vec_view(connection_vector@));
            return Ok((Connections { connection_vector }, p));
        }
    }
}

/// Parses a whole program: global declarations, packet declarations, snippets, and the
/// connections between snippets, which run to the end of the tokens.
pub fn parse_prog(tokens: &Vec<Token>) -> (r: Result<Prog, ParseError>)
    ensures
        match r {
            Ok(p) => spec_prog(tokens_view(tokens@)) == Ok::<SpecProg, ParseError>(p@),
            Err(e) => spec_prog(tokens_view(tokens@)) == Err::<SpecProg, ParseError>(e),
        },
{
    let (globals, p1) = parse_globals(tokens, 0)?;
    let (packets, p2) = parse_packets(tokens, p1)?;
    let (snippets, p3) = parse_snippets(tokens, p2)?;
    let (connections, _p4) = parse_connections(tokens, p3)?;
    Ok(Prog { globals, packets, snippets, connections })
}

} // verus!
