use vstd::prelude::*;
use crate::token::{Token, SpecToken, tokens_view};
use crate::grammar::{vec_view, lemma_vec_view_push, BinOpType};
use crate::basic_grammar::{
    Prog, Snippets, Snippet, Connections, IdList, Initializers, Initializer, Statements, Statement,
    Expr, ExprRight, Identifier, Operand, Value, SpecBasicProg, SpecBasicSnippet,
    SpecBasicStatement, SpecBasicExpr, SpecBasicExprRight, SpecBasicOperand,
};
use crate::parser::{spec_identifier, spec_value, spec_binop};
use crate::parsing::{
    ParseError, SResult, prepend_list, many, expect, parsed, advanced, moved, lemma_prepend_push,
    lemma_prepend_empty, match_token,
};

verus! {

// =============================================================================================
// Grammar of the basic snippet language
// =============================================================================================

pub open spec fn spec_basic_operand(ts: Seq<SpecToken>, pos: int) -> SResult<SpecBasicOperand> {
    if pos < 0 || pos >= ts.len() {
        Err(ParseError::UnexpectedEnd)
    } else {
        match ts[pos] {
            SpecToken::Identifier(n) => Ok((SpecBasicOperand::Identifier(n), pos + 1)),
            SpecToken::Value(v) => Ok((SpecBasicOperand::Value(v), pos + 1)),
            _ => Err(ParseError::UnexpectedToken(pos as usize)),
        }
    }
}

pub open spec fn spec_basic_expr_right(ts: Seq<SpecToken>, pos: int) -> SResult<SpecBasicExprRight> {
    if pos < 0 || pos >= ts.len() || !(spec_binop(ts[pos]) is Some || ts[pos] is Cond) {
        Ok((SpecBasicExprRight::Empty, pos))
    } else {
        match spec_binop(ts[pos]) {
            Some(op) => match spec_basic_operand(ts, pos + 1) {
                Ok((o, p)) => Ok((SpecBasicExprRight::BinOp(op, o), p)),
                Err(e) => Err(e),
            },
            None => match spec_basic_operand(ts, pos + 1) {
                Err(e) => Err(e),
                Ok((a, p)) => match expect(ts, p, SpecToken::Colon) {
                    Err(e) => Err(e),
                    Ok(q) => match spec_basic_operand(ts, q) {
                        Err(e) => Err(e),
                        Ok((b, r)) => Ok((SpecBasicExprRight::Cond(a, b), r)),
                    },
                },
            },
        }
    }
}

pub open spec fn spec_basic_expr(ts: Seq<SpecToken>, pos: int) -> SResult<SpecBasicExpr> {
    if pos < 0 || pos >= ts.len() {
        Err(ParseError::UnexpectedEnd)
    } else {
        match spec_basic_operand(ts, pos) {
            Err(e) => Err(e),
            Ok((o, p)) => match spec_basic_expr_right(ts, p) {
                Err(e) => Err(e),
                Ok((r, q)) => Ok((SpecBasicExpr { op1: o, expr_right: r }, q)),
            },
        }
    }
}

/// `name = expr ;`
pub open spec fn spec_basic_statement(ts: Seq<SpecToken>, pos: int) -> SResult<SpecBasicStatement> {
    match spec_identifier(ts, pos) {
        Err(e) => Err(e),
        Ok((n, p1)) => match expect(ts, p1, SpecToken::Assign) {
            Err(e) => Err(e),
            Ok(p2) => match spec_basic_expr(ts, p2) {
                Err(e) => Err(e),
                Ok((x, p3)) => match expect(ts, p3, SpecToken::SemiColon) {
                    Err(e) => Err(e),
                    Ok(p4) => Ok((SpecBasicStatement { target: n, expr: x }, p4)),
                },
            },
        },
    }
}

pub open spec fn spec_basic_statements(ts: Seq<SpecToken>, pos: int) -> SResult<Seq<SpecBasicStatement>> {
    many(ts, pos, |t: SpecToken| t is Identifier, |ts: Seq<SpecToken>, p: int| spec_basic_statement(ts, p))
}

/// `static name = value ;`
pub open spec fn spec_basic_initializer(ts: Seq<SpecToken>, pos: int) -> SResult<(Seq<char>, u32)> {
    match expect(ts, pos, SpecToken::Static) {
        Err(e) => Err(e),
        Ok(p1) => match spec_identifier(ts, p1) {
            Err(e) => Err(e),
            Ok((n, p2)) => match expect(ts, p2, SpecToken::Assign) {
                Err(e) => Err(e),
                Ok(p3) => match spec_value(ts, p3) {
                    Err(e) => Err(e),
                    Ok((v, p4)) => match expect(ts, p4, SpecToken::SemiColon) {
                        Err(e) => Err(e),
                        Ok(p5) => Ok(((n, v), p5)),
                    },
                },
            },
        },
    }
}

pub open spec fn spec_basic_initializers(ts: Seq<SpecToken>, pos: int) -> SResult<Seq<(Seq<char>, u32)>> {
    many(ts, pos, |t: SpecToken| t is Static, |ts: Seq<SpecToken>, p: int| spec_basic_initializer(ts, p))
}

/// `name ,`
pub open spec fn spec_id_comma(ts: Seq<SpecToken>, pos: int) -> SResult<Seq<char>> {
    match spec_identifier(ts, pos) {
        Err(e) => Err(e),
        Ok((n, p)) => match expect(ts, p, SpecToken::Comma) {
            Err(e) => Err(e),
            Ok(q) => Ok((n, q)),
        },
    }
}

/// `a, b, c,` (every name is followed by a comma)
pub open spec fn spec_idlist(ts: Seq<SpecToken>, pos: int) -> SResult<Seq<Seq<char>>> {
    many(ts, pos, |t: SpecToken| t is Identifier, |ts: Seq<SpecToken>, p: int| spec_id_comma(ts, p))
}

/// `snippet name ( arguments ) { initializers statements }`
pub open spec fn spec_basic_snippet(ts: Seq<SpecToken>, pos: int) -> SResult<SpecBasicSnippet> {
    match expect(ts, pos, SpecToken::Snippet) {
        Err(e) => Err(e),
        Ok(p1) => match spec_identifier(ts, p1) {
            Err(e) => Err(e),
            Ok((n, p2)) => match expect(ts, p2, SpecToken::ParenLeft) {
                Err(e) => Err(e),
                Ok(p3) => match spec_idlist(ts, p3) {
                    Err(e) => Err(e),
                    Ok((args, p4)) => match expect(ts, p4, SpecToken::ParenRight) {
                        Err(e) => Err(e),
                        Ok(p5) => match expect(ts, p5, SpecToken::BraceLeft) {
                            Err(e) => Err(e),
                            Ok(p6) => match spec_basic_initializers(ts, p6) {
                                Err(e) => Err(e),
                                Ok((inits, p7)) => match spec_basic_statements(ts, p7) {
                                    Err(e) => Err(e),
                                    Ok((ss, p8)) => match expect(ts, p8, SpecToken::BraceRight) {
                                        Err(e) => Err(e),
                                        Ok(p9) => Ok((SpecBasicSnippet {
                                            name: n,
                                            arguments: args,
                                            initializers: inits,
                                            statements: ss,
                                        }, p9)),
                                    },
                                },
                            },
                        },
                    },
                },
            },
        },
    }
}

pub open spec fn spec_basic_snippets(ts: Seq<SpecToken>, pos: int) -> SResult<Seq<SpecBasicSnippet>> {
    many(ts, pos, |t: SpecToken| t is Snippet, |ts: Seq<SpecToken>, p: int| spec_basic_snippet(ts, p))
}

/// `( from , to )`
pub open spec fn spec_basic_connection(ts: Seq<SpecToken>, pos: int) -> SResult<(Seq<char>, Seq<char>)> {
    match expect(ts, pos, SpecToken::ParenLeft) {
        Err(e) => Err(e),
        Ok(p1) => match spec_identifier(ts, p1) {
            Err(e) => Err(e),
            Ok((a, p2)) => match expect(ts, p2, SpecToken::Comma) {
                Err(e) => Err(e),
                Ok(p3) => match spec_identifier(ts, p3) {
                    Err(e) => Err(e),
                    Ok((b, p4)) => match expect(ts, p4, SpecToken::ParenRight) {
                        Err(e) => Err(e),
                        Ok(p5) => Ok(((a, b), p5)),
                    },
                },
            },
        },
    }
}

/// Connections run to the end of the tokens.
pub open spec fn spec_basic_connections(ts: Seq<SpecToken>, pos: int) -> SResult<Seq<(Seq<char>, Seq<char>)>> {
    many(ts, pos, |t: SpecToken| true, |ts: Seq<SpecToken>, p: int| spec_basic_connection(ts, p))
}

pub open spec fn spec_basic_prog(ts: Seq<SpecToken>, pos: int) -> SResult<SpecBasicProg> {
    match spec_basic_snippets(ts, pos) {
        Err(e) => Err(e),
        Ok((ss, p1)) => match spec_basic_connections(ts, p1) {
            Err(e) => Err(e),
            Ok((cs, p2)) => Ok((SpecBasicProg { snippets: ss, connections: cs }, p2)),
        },
    }
}

// =============================================================================================
// Executable parsers; each takes the tokens and the position to start at, and gives back the
// parsed construct and the position just after it.
// =============================================================================================

pub fn parse_identifier(ts: &Vec<Token>, pos: usize) -> (r: Result<(Identifier, usize), ParseError>)
    ensures
        parsed(r, spec_identifier(tokens_view(ts@), pos as int)),
        advanced(r, pos, ts@.len() as int),
{
    if pos >= ts.len() {
        return Err(ParseError::UnexpectedEnd);
    }
    match &ts[pos] {
        Token::Identifier(n) => Ok((Identifier::Identifier(n.clone()), pos + 1)),
        _ => Err(ParseError::UnexpectedToken(pos)),
    }
}

pub fn parse_value(ts: &Vec<Token>, pos: usize) -> (r: Result<(Value, usize), ParseError>)
    ensures
        parsed(r, spec_value(tokens_view(ts@), pos as int)),
        advanced(r, pos, ts@.len() as int),
{
    if pos >= ts.len() {
        return Err(ParseError::UnexpectedEnd);
    }
    match &ts[pos] {
        Token::Value(v) => Ok((Value::Value(*v), pos + 1)),
        _ => Err(ParseError::UnexpectedToken(pos)),
    }
}

pub fn parse_operand(ts: &Vec<Token>, pos: usize) -> (r: Result<(Operand, usize), ParseError>)
    ensures
        parsed(r, spec_basic_operand(tokens_view(ts@), pos as int)),
        advanced(r, pos, ts@.len() as int),
{
    if pos >= ts.len() {
        return Err(ParseError::UnexpectedEnd);
    }
    match &ts[pos] {
        Token::Identifier(n) => Ok((Operand::Identifier(Identifier::Identifier(n.clone())), pos + 1)),
        Token::Value(v) => Ok((Operand::Value(Value::Value(*v)), pos + 1)),
        _ => Err(ParseError::UnexpectedToken(pos)),
    }
}

fn get_bin_op(t: &Token) -> (r: Option<BinOpType>)
    ensures r == spec_binop(t@),
{
    match t {
        Token::BooleanAnd => Some(BinOpType::BooleanAnd),
        Token::BooleanOr => Some(BinOpType::BooleanOr),
        Token::Plus => Some(BinOpType::Plus),
        Token::Minus => Some(BinOpType::Minus),
        Token::Mul => Some(BinOpType::Mul),
        Token::Div => Some(BinOpType::Div),
        Token::Modulo => Some(BinOpType::Modulo),
        Token::Equal => Some(BinOpType::Equal),
        Token::NotEqual => Some(BinOpType::NotEqual),
        Token::LTEQOp => Some(BinOpType::LTEQOp),
        Token::GTEQOp => Some(BinOpType::GTEQOp),
        Token::LessThan => Some(BinOpType::LessThan),
        Token::GreaterThan => Some(BinOpType::GreaterThan),
        _ => None,
    }
}

pub fn parse_expr_right(ts: &Vec<Token>, pos: usize) -> (r: Result<(ExprRight, usize), ParseError>)
    requires pos <= ts@.len(),
    ensures
        parsed(r, spec_basic_expr_right(tokens_view(ts@), pos as int)),
        moved(r, pos, ts@.len() as int),
{
    if pos >= ts.len() {
        return Ok((ExprRight::Empty(), pos));
    }
    let op = get_bin_op(&ts[pos]);
    let is_cond = matches!(ts[pos], Token::Cond);
    if op.is_none() && !is_cond {
        return Ok((ExprRight::Empty(), pos));
    }
    match op {
        Some(b) => {
            let (o, p) = parse_operand(ts, pos + 1)?;
            Ok((ExprRight::BinOp(b, o), p))
        },
        None => {
            let (a, p) = parse_operand(ts, pos + 1)?;
            let q = match_token(ts, p, Token::Colon)?;
            let (b, r) = parse_operand(ts, q)?;
            Ok((ExprRight::Cond(a, b), r))
        },
    }
}

pub fn parse_expr(ts: &Vec<Token>, pos: usize) -> (r: Result<(Expr, usize), ParseError>)
    ensures
        parsed(r, spec_basic_expr(tokens_view(ts@), pos as int)),
        advanced(r, pos, ts@.len() as int),
{
    if pos >= ts.len() {
        return Err(ParseError::UnexpectedEnd);
    }
    let (operand, p) = parse_operand(ts, pos)?;
    let (expr_right, q) = parse_expr_right(ts, p)?;
    Ok((Expr::Expr(operand, expr_right), q))
}

pub fn parse_statement(ts: &Vec<Token>, pos: usize) -> (r: Result<(Statement, usize), ParseError>)
    ensures
        parsed(r, spec_basic_statement(tokens_view(ts@), pos as int)),
        advanced(r, pos, ts@.len() as int),
{
    let (identifier, p1) = parse_identifier(ts, pos)?;
    let p2 = match_token(ts, p1, Token::Assign)?;
    let (expr, p3) = parse_expr(ts, p2)?;
    let p4 = match_token(ts, p3, Token::SemiColon)?;
    Ok((Statement::Statement(identifier, expr), p4))
}

pub fn parse_statements(ts: &Vec<Token>, pos: usize) -> (r: Result<(Statements, usize), ParseError>)
    requires pos <= ts@.len(),
    ensures
        parsed(r, spec_basic_statements(tokens_view(ts@), pos as int)),
        moved(r, pos, ts@.len() as int),
{
    let ghost tv = tokens_view(ts@);
    let mut stmt_vector: Vec<Statement> = Vec::new();
    let mut p: usize = pos;
    proof {
        lemma_prepend_empty(spec_basic_statements(tv, pos as int));
    }
    loop
        invariant
            tv == tokens_view(ts@),
            pos <= p <= ts@.len(),
            spec_basic_statements(tv, pos as int) == prepend_list(vec_view(stmt_vector@), spec_basic_statements(tv, p as int)),
        decreases ts@.len() - p,
    {
        if p < ts.len() && matches!(ts[p], Token::Identifier(_)) {
            let (s, q) = parse_statement(ts, p)?;
            proof {
                lemma_prepend_push(vec_view(stmt_vector@), s@, spec_basic_statements(tv, q as int));
                lemma_vec_view_push(stmt_vector@, s);
            }
            stmt_vector.push(s);
            p = q;
        } else {
            assert(vec_view(stmt_vector@) + Seq::<SpecBasicStatement>::empty() =~= vec_view(stmt_vector@));
            return Ok((Statements::Statements(stmt_vector), p));
        }
    }
}

pub fn parse_initializer(ts: &Vec<Token>, pos: usize) -> (r: Result<(Initializer, usize), ParseError>)
    ensures
        parsed(r, spec_basic_initializer(tokens_view(ts@), pos as int)),
        advanced(r, pos, ts@.len() as int),
{
    let p1 = match_token(ts, pos, Token::Static)?;
    let (identifier, p2) = parse_identifier(ts, p1)?;
    let p3 = match_token(ts, p2, Token::Assign)?;
    let (value, p4) = parse_value(ts, p3)?;
    let p5 = match_token(ts, p4, Token::SemiColon)?;
    Ok((Initializer::Initializer(identifier, value), p5))
}

pub fn parse_initializers(ts: &Vec<Token>, pos: usize) -> (r: Result<(Initializers, usize), ParseError>)
    requires pos <= ts@.len(),
    ensures
        parsed(r, spec_basic_initializers(tokens_view(ts@), pos as int)),
        moved(r, pos, ts@.len() as int),
{
    let ghost tv = tokens_view(ts@);
    let mut init_vector: Vec<Initializer> = Vec::new();
    let mut p: usize = pos;
    proof {
        lemma_prepend_empty(spec_basic_initializers(tv, pos as int));
    }
    loop
        invariant
            tv == tokens_view(ts@),
            pos <= p <= ts@.len(),
            spec_basic_initializers(tv, pos as int) == prepend_list(vec_view(init_vector@), spec_basic_initializers(tv, p as int)),
        decreases ts@.len() - p,
    {
        if p < ts.len() && matches!(ts[p], Token::Static) {
            let (x, q) = parse_initializer(ts, p)?;
            proof {
                lemma_prepend_push(vec_view(init_vector@), x@, spec_basic_initializers(tv, q as int));
                lemma_vec_view_push(init_vector@, x);
            }
            init_vector.push(x);
            p = q;
        } else {
            assert(vec_view(init_vector@) + Seq::<(Seq<char>, u32)>::empty() =~= vec_view(init_vector@));
            return Ok((Initializers::Initializers(init_vector), p));
        }
    }
}

pub fn parse_idlist(ts: &Vec<Token>, pos: usize) -> (r: Result<(IdList, usize), ParseError>)
    requires pos <= ts@.len(),
    ensures
        parsed(r, spec_idlist(tokens_view(ts@), pos as int)),
        moved(r, pos, ts@.len() as int),
{
    let ghost tv = tokens_view(ts@);
    let mut id_vector: Vec<Identifier> = Vec::new();
    let mut p: usize = pos;
    proof {
        lemma_prepend_empty(spec_idlist(tv, pos as int));
    }
    loop
        invariant
            tv == tokens_view(ts@),
            pos <= p <= ts@.len(),
            spec_idlist(tv, pos as int) == prepend_list(vec_view(id_vector@), spec_idlist(tv, p as int)),
        decreases ts@.len() - p,
    {
        if p < ts.len() && matches!(ts[p], Token::Identifier(_)) {
            let (x, p1) = parse_identifier(ts, p)?;
            let q = match_token(ts, p1, Token::Comma)?;
            proof {
                lemma_prepend_push(vec_view(id_vector@), x@, spec_idlist(tv, q as int));
                lemma_vec_view_push(id_vector@, x);
            }
            id_vector.push(x);
            p = q;
        } else {
            assert(vec_view(id_vector@) + Seq::<Seq<char>>::empty() =~= vec_view(id_vector@));
            return Ok((IdList::IdList(id_vector), p));
        }
    }
}

pub fn parse_snippet(ts: &Vec<Token>, pos: usize) -> (r: Result<(Snippet, usize), ParseError>)
    ensures
        parsed(r, spec_basic_snippet(tokens_view(ts@), pos as int)),
        advanced(r, pos, ts@.len() as int),
{
    let p1 = match_token(ts, pos, Token::Snippet)?;
    let (identifier, p2) = parse_identifier(ts, p1)?;
    let p3 = match_token(ts, p2, Token::ParenLeft)?;
    let (id_list, p4) = parse_idlist(ts, p3)?;
    let p5 = match_token(ts, p4, Token::ParenRight)?;
    let p6 = match_token(ts, p5, Token::BraceLeft)?;
    let (inits, p7) = parse_initializers(ts, p6)?;
    let (stmts, p8) = parse_statements(ts, p7)?;
    let p9 = match_token(ts, p8, Token::BraceRight)?;
    Ok((Snippet::Snippet(identifier, id_list, inits, stmts), p9))
}

pub fn parse_snippets(ts: &Vec<Token>, pos: usize) -> (r: Result<(Snippets, usize), ParseError>)
    requires pos <= ts@.len(),
    ensures
        parsed(r, spec_basic_snippets(tokens_view(ts@), pos as int)),
        moved(r, pos, ts@.len() as int),
{
    let ghost tv = tokens_view(ts@);
    let mut snippet_vector: Vec<Snippet> = Vec::new();
    let mut p: usize = pos;
    proof {
        lemma_prepend_empty(spec_basic_snippets(tv, pos as int));
    }
    loop
        invariant
            tv == tokens_view(ts@),
            pos <= p <= ts@.len(),
            spec_basic_snippets(tv, pos as int) == prepend_list(vec_view(snippet_vector@), spec_basic_snippets(tv, p as int)),
        decreases ts@.len() - p,
    {
        if p < ts.len() && matches!(ts[p], Token::Snippet) {
            let (x, q) = parse_snippet(ts, p)?;
            proof {
                lemma_prepend_push(vec_view(snippet_vector@), x@, spec_basic_snippets(tv, q as int));
                lemma_vec_view_push(snippet_vector@, x);
            }
            snippet_vector.push(x);
            p = q;
        } else {
            assert(vec_view(snippet_vector@) + Seq::<SpecBasicSnippet>::empty() =~= vec_view(snippet_vector@));
            return Ok((Snippets::Snippets(snippet_vector), p));
        }
    }
}

pub fn parse_connections(ts: &Vec<Token>, pos: usize) -> (r: Result<(Connections, usize), ParseError>)
    requires pos <= ts@.len(),
    ensures
        parsed(r, spec_basic_connections(tokens_view(ts@), pos as int)),
        moved(r, pos, ts@.len() as int),
    decreases ts@.len() - pos,
{
    let ghost tv = tokens_view(ts@);
    if pos >= ts.len() {
        return Ok((Connections::Empty(), pos));
    }
    let p1 = match_token(ts, pos, Token::ParenLeft)?;
    let (id1, p2) = parse_identifier(ts, p1)?;
    let p3 = match_token(ts, p2, Token::Comma)?;
    let (id2, p4) = parse_identifier(ts, p3)?;
    let p5 = match_token(ts, p4, Token::ParenRight)?;
    assert(spec_basic_connection(tv, pos as int) == Ok::<((Seq<char>, Seq<char>), int), ParseError>(((id1@, id2@), p5 as int)));
    let (conns, p6) = parse_connections(ts, p5)?;
    let result = Connections::Connections(id1, id2, Box::new(conns));
    assert(result@ == seq![(id1@, id2@)] + conns@);
    Ok((result, p6))
}

pub fn parse_prog(ts: &Vec<Token>, pos: usize) -> (r: Result<(Prog, usize), ParseError>)
    requires pos <= ts@.len(),
    ensures
        parsed(r, spec_basic_prog(tokens_view(ts@), pos as int)),
        moved(r, pos, ts@.len() as int),
{
    let (snippets, p1) = parse_snippets(ts, pos)?;
    let (connections, p2) = parse_connections(ts, p1)?;
    Ok((Prog::Prog(snippets, connections), p2))
}

} // verus!
