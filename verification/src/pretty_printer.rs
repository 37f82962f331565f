use vstd::prelude::*;
use crate::token::{Token, SpecToken, tokens_view, lemma_tokens_view_push};
use crate::lexer::{render, render_tokens};
use crate::grammar::{
    vec_view, Prog, Packet, PacketParserCondition, Snippet, IfBlock, Connection, TypeQualifier,
    VarInfo, VarType, VariableDecl, Statement, Expr, BinOpType, ExprRight, Operand, LValue,
    PacketField, SpecProg, SpecPacket, SpecParserCondition, SpecPacketField, SpecSnippet,
    SpecIfBlock, SpecConnection, SpecVarInfo, SpecVarType, SpecVariableDecl, SpecStatement,
    SpecExpr, SpecExprRight, SpecOperand, SpecLValue,
};

verus! {

// =============================================================================================
// The tokens that spell a syntax tree
// =============================================================================================

/// The tokens of the items of `xs`, one item after the other.
pub open spec fn flat<T>(xs: Seq<T>, f: spec_fn(T) -> Seq<SpecToken>) -> Seq<SpecToken>
    decreases xs.len(),
{
    if xs.len() == 0 {
        Seq::empty()
    } else {
        f(xs[0]) + flat(xs.drop_first(), f)
    }
}

pub proof fn lemma_flat_push<T>(xs: Seq<T>, x: T, f: spec_fn(T) -> Seq<SpecToken>)
    ensures flat(xs.push(x), f) == flat(xs, f) + f(x),
    decreases xs.len(),
{
    if xs.len() == 0 {
        assert(xs.push(x).drop_first() =~= Seq::<T>::empty());
        assert(flat(Seq::<T>::empty(), f) == Seq::<SpecToken>::empty());
        assert(xs.push(x)[0] == x);
        assert(flat(xs, f) == Seq::<SpecToken>::empty());
        assert(flat(xs.push(x), f) =~= flat(xs, f) + f(x));
    } else {
        lemma_flat_push(xs.drop_first(), x, f);
        assert(xs.push(x).drop_first() =~= xs.drop_first().push(x));
        assert(flat(xs.push(x), f) =~= flat(xs, f) + f(x));
    }
}

pub open spec fn binop_token(op: BinOpType) -> SpecToken {
    match op {
        BinOpType::BooleanAnd => SpecToken::BooleanAnd,
        BinOpType::BooleanOr => SpecToken::BooleanOr,
        BinOpType::Plus => SpecToken::Plus,
        BinOpType::Minus => SpecToken::Minus,
        BinOpType::Mul => SpecToken::Mul,
        BinOpType::Div => SpecToken::Div,
        BinOpType::Modulo => SpecToken::Modulo,
        BinOpType::Equal => SpecToken::Equal,
        BinOpType::NotEqual => SpecToken::NotEqual,
        BinOpType::LTEQOp => SpecToken::LTEQOp,
        BinOpType::GTEQOp => SpecToken::GTEQOp,
        BinOpType::LessThan => SpecToken::LessThan,
        BinOpType::GreaterThan => SpecToken::GreaterThan,
    }
}

/// The token printed for an operation is read back as that operation.
pub proof fn lemma_printed_binop_parses_back(op: BinOpType)
    ensures crate::parser::spec_binop(binop_token(op)) == Some(op),
{
}

pub open spec fn operand_tokens(o: SpecOperand) -> Seq<SpecToken>
    decreases o,
{
    match o {
        SpecOperand::Value(v) => seq![SpecToken::Value(v)],
        SpecOperand::LValue(l) => lvalue_tokens(l),
    }
}

pub open spec fn lvalue_tokens(l: SpecLValue) -> Seq<SpecToken>
    decreases l,
{
    match l {
        SpecLValue::Scalar(n) => seq![SpecToken::Identifier(n)],
        SpecLValue::Field(n, f) => seq![SpecToken::Identifier(n), SpecToken::Dot, SpecToken::Identifier(f)],
        SpecLValue::Array(n, a) => seq![SpecToken::Identifier(n), SpecToken::SquareLeft]
            + operand_tokens(*a) + seq![SpecToken::SquareRight],
    }
}

pub open spec fn expr_right_tokens(r: SpecExprRight) -> Seq<SpecToken> {
    match r {
        SpecExprRight::Empty => Seq::empty(),
        SpecExprRight::BinOp(op, o) => seq![binop_token(op)] + operand_tokens(o),
        SpecExprRight::Cond(a, b) => seq![SpecToken::Cond] + operand_tokens(a) + seq![SpecToken::Colon] + operand_tokens(b),
    }
}

pub open spec fn expr_tokens(e: SpecExpr) -> Seq<SpecToken> {
    operand_tokens(e.op1) + expr_right_tokens(e.expr_right)
}

pub open spec fn statement_tokens(s: SpecStatement) -> Seq<SpecToken> {
    lvalue_tokens(s.lvalue) + seq![SpecToken::Assign] + expr_tokens(s.expr) + seq![SpecToken::SemiColon]
}

pub open spec fn statements_tokens(ss: Seq<SpecStatement>) -> Seq<SpecToken> {
    flat(ss, |s: SpecStatement| statement_tokens(s))
}

/// `if ( condition ) { statements }`, `else { statements }`, or the statements alone.
pub open spec fn ifblock_tokens(b: SpecIfBlock) -> Seq<SpecToken> {
    if b.condtype == 1 {
        seq![SpecToken::If, SpecToken::ParenLeft] + expr_tokens(b.condition)
            + seq![SpecToken::ParenRight, SpecToken::BraceLeft] + statements_tokens(b.statements)
            + seq![SpecToken::BraceRight]
    } else if b.condtype == 2 {
        seq![SpecToken::Else, SpecToken::BraceLeft] + statements_tokens(b.statements) + seq![SpecToken::BraceRight]
    } else {
        statements_tokens(b.statements)
    }
}

pub open spec fn ifblocks_tokens(bs: Seq<SpecIfBlock>) -> Seq<SpecToken> {
    flat(bs, |b: SpecIfBlock| ifblock_tokens(b))
}

/// `: name` or `: bit < width > [ size ]`
pub open spec fn var_type_tokens(vt: SpecVarType) -> Seq<SpecToken> {
    match vt.var_info {
        SpecVarInfo::Packet(n) => seq![SpecToken::Colon, SpecToken::Identifier(n)],
        SpecVarInfo::BitArray(w, n) => seq![
            SpecToken::Colon,
            SpecToken::Bit,
            SpecToken::LessThan,
            SpecToken::Value(w),
            SpecToken::GreaterThan,
            SpecToken::SquareLeft,
            SpecToken::Value(n),
            SpecToken::SquareRight,
        ],
    }
}

/// The token that introduces a declaration with qualifier `q`; packet fields are written `field`.
pub open spec fn qualifier_token(q: TypeQualifier) -> SpecToken {
    match q {
        TypeQualifier::Input => SpecToken::Input,
        TypeQualifier::Output => SpecToken::Output,
        TypeQualifier::Persistent => SpecToken::Persistent,
        TypeQualifier::Transient => SpecToken::Transient,
        TypeQualifier::Const => SpecToken::Const,
        TypeQualifier::Global => SpecToken::Global,
        TypeQualifier::Field => SpecToken::Identifier(seq!['f', 'i', 'e', 'l', 'd']),
    }
}

pub open spec fn value_comma_tokens(v: u32) -> Seq<SpecToken> {
    seq![SpecToken::Value(v), SpecToken::Comma]
}

/// Nothing, or `= { v1 , v2 , }`.
pub open spec fn initial_values_tokens(vals: Seq<u32>) -> Seq<SpecToken> {
    if vals.len() == 0 {
        Seq::empty()
    } else {
        seq![SpecToken::Assign, SpecToken::BraceLeft] + flat(vals, |v: u32| value_comma_tokens(v))
            + seq![SpecToken::BraceRight]
    }
}

pub open spec fn decl_tokens(d: SpecVariableDecl) -> Seq<SpecToken> {
    seq![qualifier_token(d.var_type.type_qualifier), SpecToken::Identifier(d.identifier)]
        + var_type_tokens(d.var_type) + initial_values_tokens(d.initial_values) + seq![SpecToken::SemiColon]
}

pub open spec fn decls_tokens(ds: Seq<SpecVariableDecl>) -> Seq<SpecToken> {
    flat(ds, |d: SpecVariableDecl| decl_tokens(d))
}

pub open spec fn packet_field_tokens(f: SpecPacketField) -> Seq<SpecToken> {
    seq![SpecToken::Identifier(f.identifier)] + var_type_tokens(f.var_type) + seq![SpecToken::SemiColon]
}

pub open spec fn packet_fields_tokens(fs: Seq<SpecPacketField>) -> Seq<SpecToken> {
    flat(fs, |f: SpecPacketField| packet_field_tokens(f))
}

pub open spec fn parser_condition_tokens(c: SpecParserCondition) -> Seq<SpecToken> {
    match c {
        SpecParserCondition::ParserCondition(f, v) => seq![SpecToken::Identifier(f), SpecToken::Colon, SpecToken::Value(v)],
        SpecParserCondition::Empty => Seq::empty(),
    }
}

/// `packet name : base ( condition ) { fields }`
pub open spec fn packet_tokens(p: SpecPacket) -> Seq<SpecToken> {
    seq![SpecToken::Packet, SpecToken::Identifier(p.packet_id), SpecToken::Colon, SpecToken::Identifier(p.packet_base), SpecToken::ParenLeft]
        + parser_condition_tokens(p.packet_parser_condition)
        + seq![SpecToken::ParenRight, SpecToken::BraceLeft]
        + packet_fields_tokens(p.packet_fields)
        + seq![SpecToken::BraceRight]
}

pub open spec fn packets_tokens(ps: Seq<SpecPacket>) -> Seq<SpecToken> {
    flat(ps, |p: SpecPacket| packet_tokens(p))
}

/// `snippet`, or `@ device snippet` for a snippet bound to a device.
pub open spec fn device_tokens(d: Seq<char>) -> Seq<SpecToken> {
    if d.len() == 0 {
        seq![SpecToken::Snippet]
    } else {
        seq![SpecToken::Annotation, SpecToken::Identifier(d), SpecToken::Snippet]
    }
}

/// `[@ device] snippet name ( ) { declarations blocks }`
pub open spec fn snippet_tokens(s: SpecSnippet) -> Seq<SpecToken> {
    device_tokens(s.device_id)
        + seq![SpecToken::Identifier(s.snippet_id), SpecToken::ParenLeft, SpecToken::ParenRight, SpecToken::BraceLeft]
        + decls_tokens(s.variable_decls) + ifblocks_tokens(s.ifblocks) + seq![SpecToken::BraceRight]
}

pub open spec fn snippets_tokens(ss: Seq<SpecSnippet>) -> Seq<SpecToken> {
    flat(ss, |s: SpecSnippet| snippet_tokens(s))
}

pub open spec fn pair_tokens(p: (Seq<char>, Seq<char>)) -> Seq<SpecToken> {
    seq![SpecToken::Identifier(p.0), SpecToken::Arrow, SpecToken::Identifier(p.1), SpecToken::Comma]
}

/// `( from , to )`, followed by `: a -> b , ...` when variables are paired.
pub open spec fn connection_tokens(c: SpecConnection) -> Seq<SpecToken> {
    seq![SpecToken::ParenLeft, SpecToken::Identifier(c.from_snippet), SpecToken::Comma, SpecToken::Identifier(c.to_snippet), SpecToken::ParenRight]
        + if c.variable_pairs.len() == 0 {
            Seq::empty()
        } else {
            seq![SpecToken::Colon] + flat(c.variable_pairs, |p: (Seq<char>, Seq<char>)| pair_tokens(p))
        }
}

pub open spec fn connections_tokens(cs: Seq<SpecConnection>) -> Seq<SpecToken> {
    flat(cs, |c: SpecConnection| connection_tokens(c))
}

/// The tokens of a program: globals, packets, snippets, connections.
pub open spec fn prog_tokens(p: SpecProg) -> Seq<SpecToken> {
    decls_tokens(p.globals) + packets_tokens(p.packets) + snippets_tokens(p.snippets)
        + connections_tokens(p.connections)
}

/// The text the pretty printer writes for a program.
pub open spec fn pretty(p: SpecProg) -> Seq<char> {
    render(prog_tokens(p))
}

// =============================================================================================
// Writing the tokens
// =============================================================================================

fn emit(out: &mut Vec<Token>, t: Token)
    ensures tokens_view(final(out)@) == tokens_view(old(out)@).push(t@),
{
    proof {
        lemma_tokens_view_push(out@, t);
    }
    out.push(t);
}

fn emit_name(out: &mut Vec<Token>, n: &String)
    ensures tokens_view(final(out)@) == tokens_view(old(out)@).push(SpecToken::Identifier(n@)),
{
    emit(out, Token::Identifier(n.clone()));
}

fn emit_binop(out: &mut Vec<Token>, op: BinOpType)
    ensures tokens_view(final(out)@) == tokens_view(old(out)@).push(binop_token(op)),
{
    let t = match op {
        BinOpType::BooleanAnd => Token::BooleanAnd,
        BinOpType::BooleanOr => Token::BooleanOr,
        BinOpType::Plus => Token::Plus,
        BinOpType::Minus => Token::Minus,
        BinOpType::Mul => Token::Mul,
        BinOpType::Div => Token::Div,
        BinOpType::Modulo => Token::Modulo,
        BinOpType::Equal => Token::Equal,
        BinOpType::NotEqual => Token::NotEqual,
        BinOpType::LTEQOp => Token::LTEQOp,
        BinOpType::GTEQOp => Token::GTEQOp,
        BinOpType::LessThan => Token::LessThan,
        BinOpType::GreaterThan => Token::GreaterThan,
    };
    emit(out, t);
}

fn emit_operand(out: &mut Vec<Token>, o: &Operand)
    ensures tokens_view(final(out)@) == tokens_view(old(out)@) + operand_tokens(o@),
    decreases o,
{
    let ghost before = tokens_view(out@);
    match o {
        Operand::Value(v) => {
            emit(out, Token::Value(v.value));
            assert(tokens_view(out@) =~= before + operand_tokens(o@));
        },
        Operand::LValue(l) => {
            emit_lvalue(out, l);
        },
    }
}

fn emit_lvalue(out: &mut Vec<Token>, l: &LValue)
    ensures tokens_view(final(out)@) == tokens_view(old(out)@) + lvalue_tokens(l@),
    decreases l,
{
    let ghost before = tokens_view(out@);
    match l {
        LValue::Scalar(id) => {
            emit_name(out, &id.id_name);
        },
        LValue::Field(id, f) => {
            emit_name(out, &id.id_name);
            emit(out, Token::Dot);
            emit_name(out, &f.id_name);
        },
        LValue::Array(id, a) => {
            emit_name(out, &id.id_name);
            emit(out, Token::SquareLeft);
            emit_operand(out, &**a);
            emit(out, Token::SquareRight);
        },
    }
    assert(tokens_view(out@) =~= before + lvalue_tokens(l@));
}

fn emit_expr(out: &mut Vec<Token>, e: &Expr)
    ensures tokens_view(final(out)@) == tokens_view(old(out)@) + expr_tokens(e@),
{
    let ghost before = tokens_view(out@);
    emit_operand(out, &e.op1);
    match &e.expr_right {
        ExprRight::Empty() => {},
        ExprRight::BinOp(op, o) => {
            emit_binop(out, *op);
            emit_operand(out, o);
        },
        ExprRight::Cond(a, b) => {
            emit(out, Token::Cond);
            emit_operand(out, a);
            emit(out, Token::Colon);
            emit_operand(out, b);
        },
    }
    assert(tokens_view(out@) =~= before + expr_tokens(e@));
}

fn emit_statement(out: &mut Vec<Token>, s: &Statement)
    ensures tokens_view(final(out)@) == tokens_view(old(out)@) + statement_tokens(s@),
{
    let ghost before = tokens_view(out@);
    emit_lvalue(out, &s.lvalue);
    emit(out, Token::Assign);
    emit_expr(out, &s.expr);
    emit(out, Token::SemiColon);
    assert(tokens_view(out@) =~= before + statement_tokens(s@));
}

fn emit_statements(out: &mut Vec<Token>, ss: &Vec<Statement>)
    ensures tokens_view(final(out)@) == tokens_view(old(out)@) + statements_tokens(vec_view(ss@)),
{
    let ghost before = tokens_view(out@);
    let mut i: usize = 0;
    assert(vec_view(ss@.subrange(0, 0)) =~= Seq::<SpecStatement>::empty());
    assert(tokens_view(out@) =~= before + statements_tokens(vec_view(ss@.subrange(0, 0))));
    while i < ss.len()
        invariant
            i <= ss@.len(),
            tokens_view(out@) == before + statements_tokens(vec_view(ss@.subrange(0, i as int))),
        decreases ss@.len() - i,
    {
        emit_statement(out, &ss[i]);
        proof {
            assert(vec_view(ss@.subrange(0, i + 1)) =~= vec_view(ss@.subrange(0, i as int)).push(ss@[i as int]@));
            lemma_flat_push(vec_view(ss@.subrange(0, i as int)), ss@[i as int]@, |s: SpecStatement| statement_tokens(s));
        }
        i = i + 1;
        assert(tokens_view(out@) =~= before + statements_tokens(vec_view(ss@.subrange(0, i as int))));
    }
    assert(ss@.subrange(0, i as int) =~= ss@);
}

fn emit_ifblock(out: &mut Vec<Token>, b: &IfBlock)
    ensures tokens_view(final(out)@) == tokens_view(old(out)@) + ifblock_tokens(b@),
{
    let ghost before = tokens_view(out@);
    if b.condtype == 1 {
        emit(out, Token::If);
        emit(out, Token::ParenLeft);
        emit_expr(out, &b.condition.expr);
        emit(out, Token::ParenRight);
        emit(out, Token::BraceLeft);
        emit_statements(out, &b.statements.stmt_vector);
        emit(out, Token::BraceRight);
    } else if b.condtype == 2 {
        emit(out, Token::Else);
        emit(out, Token::BraceLeft);
        emit_statements(out, &b.statements.stmt_vector);
        emit(out, Token::BraceRight);
    } else {
        emit_statements(out, &b.statements.stmt_vector);
    }
    assert(tokens_view(out@) =~= before + ifblock_tokens(b@));
}

fn emit_ifblocks(out: &mut Vec<Token>, bs: &Vec<IfBlock>)
    ensures tokens_view(final(out)@) == tokens_view(old(out)@) + ifblocks_tokens(vec_view(bs@)),
{
    let ghost before = tokens_view(out@);
    let mut i: usize = 0;
    assert(vec_view(bs@.subrange(0, 0)) =~= Seq::<SpecIfBlock>::empty());
    assert(tokens_view(out@) =~= before + ifblocks_tokens(vec_view(bs@.subrange(0, 0))));
    while i < bs.len()
        invariant
            i <= bs@.len(),
            tokens_view(out@) == before + ifblocks_tokens(vec_view(bs@.subrange(0, i as int))),
        decreases bs@.len() - i,
    {
        emit_ifblock(out, &bs[i]);
        proof {
            assert(vec_view(bs@.subrange(0, i + 1)) =~= vec_view(bs@.subrange(0, i as int)).push(bs@[i as int]@));
            lemma_flat_push(vec_view(bs@.subrange(0, i as int)), bs@[i as int]@, |b: SpecIfBlock| ifblock_tokens(b));
        }
        i = i + 1;
        assert(tokens_view(out@) =~= before + ifblocks_tokens(vec_view(bs@.subrange(0, i as int))));
    }
    assert(bs@.subrange(0, i as int) =~= bs@);
}

fn emit_var_type(out: &mut Vec<Token>, vt: &VarType)
    ensures tokens_view(final(out)@) == tokens_view(old(out)@) + var_type_tokens(vt@),
{
    let ghost before = tokens_view(out@);
    emit(out, Token::Colon);
    match &vt.var_info {
        VarInfo::Packet(n) => {
            emit_name(out, &n.id_name);
        },
        VarInfo::BitArray(w, n) => {
            emit(out, Token::Bit);
            emit(out, Token::LessThan);
            emit(out, Token::Value(*w));
            emit(out, Token::GreaterThan);
            emit(out, Token::SquareLeft);
            emit(out, Token::Value(*n));
            emit(out, Token::SquareRight);
        },
    }
    assert(tokens_view(out@) =~= before + var_type_tokens(vt@));
}

fn emit_qualifier(out: &mut Vec<Token>, q: TypeQualifier)
    ensures tokens_view(final(out)@) == tokens_view(old(out)@).push(qualifier_token(q)),
{
    let t = match q {
        TypeQualifier::Input => Token::Input,
        TypeQualifier::Output => Token::Output,
        TypeQualifier::Persistent => Token::Persistent,
        TypeQualifier::Transient => Token::Transient,
        TypeQualifier::Const => Token::Const,
        TypeQualifier::Global => Token::Global,
        TypeQualifier::Field => {
            let s = String::from_str("field");
            proof {
                reveal_strlit("field");
            }
            assert(s@ =~= seq!['f', 'i', 'e', 'l', 'd']);
            Token::Identifier(s)
        },
    };
    emit(out, t);
}

fn emit_decl(out: &mut Vec<Token>, d: &VariableDecl)
    ensures tokens_view(final(out)@) == tokens_view(old(out)@) + decl_tokens(d@),
{
    let ghost before = tokens_view(out@);
    emit_qualifier(out, d.var_type.type_qualifier);
    emit_name(out, &d.identifier.id_name);
    emit_var_type(out, &d.var_type);
    let ghost mid = tokens_view(out@);
    let ghost vals = vec_view(d.initial_values@);
    if d.initial_values.len() > 0 {
        emit(out, Token::Assign);
        emit(out, Token::BraceLeft);
        let ghost start = tokens_view(out@);
        let mut i: usize = 0;
        assert(vec_view(d.initial_values@.subrange(0, 0)) =~= Seq::<u32>::empty());
        assert(tokens_view(out@) =~= start + flat(vec_view(d.initial_values@.subrange(0, 0)), |v: u32| value_comma_tokens(v)));
        while i < d.initial_values.len()
            invariant
                i <= d.initial_values@.len(),
                tokens_view(out@) == start + flat(vec_view(d.initial_values@.subrange(0, i as int)), |v: u32| value_comma_tokens(v)),
            decreases d.initial_values@.len() - i,
        {
            emit(out, Token::Value(d.initial_values[i].value));
            emit(out, Token::Comma);
            proof {
                assert(vec_view(d.initial_values@.subrange(0, i + 1)) =~= vec_view(d.initial_values@.subrange(0, i as int)).push(d.initial_values@[i as int]@));
                lemma_flat_push(vec_view(d.initial_values@.subrange(0, i as int)), d.initial_values@[i as int]@, |v: u32| value_comma_tokens(v));
            }
            i = i + 1;
            assert(tokens_view(out@) =~= start + flat(vec_view(d.initial_values@.subrange(0, i as int)), |v: u32| value_comma_tokens(v)));
        }
        assert(d.initial_values@.subrange(0, i as int) =~= d.initial_values@);
        emit(out, Token::BraceRight);
    }
    emit(out, Token::SemiColon);
    assert(tokens_view(out@) =~= before + decl_tokens(d@));
}

fn emit_decls(out: &mut Vec<Token>, ds: &Vec<VariableDecl>)
    ensures tokens_view(final(out)@) == tokens_view(old(out)@) + decls_tokens(vec_view(ds@)),
{
    let ghost before = tokens_view(out@);
    let mut i: usize = 0;
    assert(vec_view(ds@.subrange(0, 0)) =~= Seq::<SpecVariableDecl>::empty());
    assert(tokens_view(out@) =~= before + decls_tokens(vec_view(ds@.subrange(0, 0))));
    while i < ds.len()
        invariant
            i <= ds@.len(),
            tokens_view(out@) == before + decls_tokens(vec_view(ds@.subrange(0, i as int))),
        decreases ds@.len() - i,
    {
        emit_decl(out, &ds[i]);
        proof {
            assert(vec_view(ds@.subrange(0, i + 1)) =~= vec_view(ds@.subrange(0, i as int)).push(ds@[i as int]@));
            lemma_flat_push(vec_view(ds@.subrange(0, i as int)), ds@[i as int]@, |d: SpecVariableDecl| decl_tokens(d));
        }
        i = i + 1;
        assert(tokens_view(out@) =~= before + decls_tokens(vec_view(ds@.subrange(0, i as int))));
    }
    assert(ds@.subrange(0, i as int) =~= ds@);
}

fn emit_packet_field(out: &mut Vec<Token>, f: &PacketField)
    ensures tokens_view(final(out)@) == tokens_view(old(out)@) + packet_field_tokens(f@),
{
    let ghost before = tokens_view(out@);
    emit_name(out, &f.identifier.id_name);
    emit_var_type(out, &f.var_type);
    emit(out, Token::SemiColon);
    assert(tokens_view(out@) =~= before + packet_field_tokens(f@));
}

fn emit_packet(out: &mut Vec<Token>, p: &Packet)
    ensures tokens_view(final(out)@) == tokens_view(old(out)@) + packet_tokens(p@),
{
    let ghost before = tokens_view(out@);
    emit(out, Token::Packet);
    emit_name(out, &p.packet_id.id_name);
    emit(out, Token::Colon);
    emit_name(out, &p.packet_base.id_name);
    emit(out, Token::ParenLeft);
    match &p.packet_parser_condition {
        PacketParserCondition::ParserCondition(f, v) => {
            emit_name(out, &f.id_name);
            emit(out, Token::Colon);
            emit(out, Token::Value(v.value));
        },
        PacketParserCondition::Empty() => {},
    }
    emit(out, Token::ParenRight);
    emit(out, Token::BraceLeft);
    let ghost start = tokens_view(out@);
    let fs = &p.packet_fields.field_vector;
    let mut i: usize = 0;
    assert(vec_view(fs@.subrange(0, 0)) =~= Seq::<SpecPacketField>::empty());
    assert(tokens_view(out@) =~= start + packet_fields_tokens(vec_view(fs@.subrange(0, 0))));
    while i < fs.len()
        invariant
            i <= fs@.len(),
            tokens_view(out@) == start + packet_fields_tokens(vec_view(fs@.subrange(0, i as int))),
        decreases fs@.len() - i,
    {
        emit_packet_field(out, &fs[i]);
        proof {
            assert(vec_view(fs@.subrange(0, i + 1)) =~= vec_view(fs@.subrange(0, i as int)).push(fs@[i as int]@));
            lemma_flat_push(vec_view(fs@.subrange(0, i as int)), fs@[i as int]@, |f: SpecPacketField| packet_field_tokens(f));
        }
        i = i + 1;
        assert(tokens_view(out@) =~= start + packet_fields_tokens(vec_view(fs@.subrange(0, i as int))));
    }
    assert(fs@.subrange(0, i as int) =~= fs@);
    emit(out, Token::BraceRight);
    assert(tokens_view(out@) =~= before + packet_tokens(p@));
}

fn emit_snippet(out: &mut Vec<Token>, s: &Snippet)
    ensures tokens_view(final(out)@) == tokens_view(old(out)@) + snippet_tokens(s@),
{
    let ghost before = tokens_view(out@);
    if s.device_id.id_name.as_str().is_empty() {
        emit(out, Token::Snippet);
    } else {
        emit(out, Token::Annotation);
        emit_name(out, &s.device_id.id_name);
        emit(out, Token::Snippet);
    }
    assert(tokens_view(out@) =~= before + device_tokens(s.device_id.id_name@));
    emit_name(out, &s.snippet_id.id_name);
    emit(out, Token::ParenLeft);
    emit(out, Token::ParenRight);
    emit(out, Token::BraceLeft);
    emit_decls(out, &s.variable_decls.decl_vector);
    emit_ifblocks(out, &s.ifblocks.ifblock_vector);
    emit(out, Token::BraceRight);
    assert(tokens_view(out@) =~= before + snippet_tokens(s@));
}

fn emit_connection(out: &mut Vec<Token>, c: &Connection)
    ensures tokens_view(final(out)@) == tokens_view(old(out)@) + connection_tokens(c@),
{
    let ghost before = tokens_view(out@);
    emit(out, Token::ParenLeft);
    emit_name(out, &c.from_snippet.id_name);
    emit(out, Token::Comma);
    emit_name(out, &c.to_snippet.id_name);
    emit(out, Token::ParenRight);
    let ghost mid = tokens_view(out@);
    let ps = &c.variable_pairs;
    if ps.len() > 0 {
        emit(out, Token::Colon);
        let ghost start = tokens_view(out@);
        let mut i: usize = 0;
        assert(vec_view(ps@.subrange(0, 0)) =~= Seq::<(Seq<char>, Seq<char>)>::empty());
        assert(tokens_view(out@) =~= start + flat(vec_view(ps@.subrange(0, 0)), |p: (Seq<char>, Seq<char>)| pair_tokens(p)));
        while i < ps.len()
            invariant
                i <= ps@.len(),
                tokens_view(out@) == start + flat(vec_view(ps@.subrange(0, i as int)), |p: (Seq<char>, Seq<char>)| pair_tokens(p)),
            decreases ps@.len() - i,
        {
            emit_name(out, &ps[i].from_var.id_name);
            emit(out, Token::Arrow);
            emit_name(out, &ps[i].to_var.id_name);
            emit(out, Token::Comma);
            proof {
                assert(vec_view(ps@.subrange(0, i + 1)) =~= vec_view(ps@.subrange(0, i as int)).push(ps@[i as int]@));
                lemma_flat_push(vec_view(ps@.subrange(0, i as int)), ps@[i as int]@, |p: (Seq<char>, Seq<char>)| pair_tokens(p));
            }
            i = i + 1;
            assert(tokens_view(out@) =~= start + flat(vec_view(ps@.subrange(0, i as int)), |p: (Seq<char>, Seq<char>)| pair_tokens(p)));
        }
        assert(ps@.subrange(0, i as int) =~= ps@);
    }
    assert(tokens_view(out@) =~= before + connection_tokens(c@));
}

/// The tokens that spell a program.
pub fn prog_to_tokens(p: &Prog) -> (ts: Vec<Token>)
    ensures tokens_view(ts@) == prog_tokens(p@),
{
    let mut out: Vec<Token> = Vec::new();
    emit_decls(&mut out, &p.globals.global_vector);
    let ghost after_globals = tokens_view(out@);
    let ps = &p.packets.packet_vector;
    let mut i: usize = 0;
    assert(vec_view(ps@.subrange(0, 0)) =~= Seq::<SpecPacket>::empty());
    assert(tokens_view(out@) =~= after_globals + packets_tokens(vec_view(ps@.subrange(0, 0))));
    while i < ps.len()
        invariant
            i <= ps@.len(),
            tokens_view(out@) == after_globals + packets_tokens(vec_view(ps@.subrange(0, i as int))),
        decreases ps@.len() - i,
    {
        emit_packet(&mut out, &ps[i]);
        proof {
            assert(vec_view(ps@.subrange(0, i + 1)) =~= vec_view(ps@.subrange(0, i as int)).push(ps@[i as int]@));
            lemma_flat_push(vec_view(ps@.subrange(0, i as int)), ps@[i as int]@, |p: SpecPacket| packet_tokens(p));
        }
        i = i + 1;
        assert(tokens_view(out@) =~= after_globals + packets_tokens(vec_view(ps@.subrange(0, i as int))));
    }
    assert(ps@.subrange(0, i as int) =~= ps@);
    let ghost after_packets = tokens_view(out@);
    let ss = &p.snippets.snippet_vector;
    let mut j: usize = 0;
    assert(vec_view(ss@.subrange(0, 0)) =~= Seq::<SpecSnippet>::empty());
    assert(tokens_view(out@) =~= after_packets + snippets_tokens(vec_view(ss@.subrange(0, 0))));
    while j < ss.len()
        invariant
            j <= ss@.len(),
            tokens_view(out@) == after_packets + snippets_tokens(vec_view(ss@.subrange(0, j as int))),
        decreases ss@.len() - j,
    {
        emit_snippet(&mut out, &ss[j]);
        proof {
            assert(vec_view(ss@.subrange(0, j + 1)) =~= vec_view(ss@.subrange(0, j as int)).push(ss@[j as int]@));
            lemma_flat_push(vec_view(ss@.subrange(0, j as int)), ss@[j as int]@, |s: SpecSnippet| snippet_tokens(s));
        }
        j = j + 1;
        assert(tokens_view(out@) =~= after_packets + snippets_tokens(vec_view(ss@.subrange(0, j as int))));
    }
    assert(ss@.subrange(0, j as int) =~= ss@);
    let ghost after_snippets = tokens_view(out@);
    let cs = &p.connections.connection_vector;
    let mut k: usize = 0;
    assert(vec_view(cs@.subrange(0, 0)) =~= Seq::<SpecConnection>::empty());
    assert(tokens_view(out@) =~= after_snippets + connections_tokens(vec_view(cs@.subrange(0, 0))));
    while k < cs.len()
        invariant
            k <= cs@.len(),
            tokens_view(out@) == after_snippets + connections_tokens(vec_view(cs@.subrange(0, k as int))),
        decreases cs@.len() - k,
    {
        emit_connection(&mut out, &cs[k]);
        proof {
            assert(vec_view(cs@.subrange(0, k + 1)) =~= vec_view(cs@.subrange(0, k as int)).push(cs@[k as int]@));
            lemma_flat_push(vec_view(cs@.subrange(0, k as int)), cs@[k as int]@, |c: SpecConnection| connection_tokens(c));
        }
        k = k + 1;
        assert(tokens_view(out@) =~= after_snippets + connections_tokens(vec_view(cs@.subrange(0, k as int))));
    }
    assert(cs@.subrange(0, k as int) =~= cs@);
    assert(tokens_view(out@) =~= prog_tokens(p@));
    out
}

/// Writes programs back as source text that the lexer and parser read again.
pub struct PrettyPrinter {
    pub pretty_print_str: String,
}

impl PrettyPrinter {
    pub fn new() -> (pp: PrettyPrinter)
        ensures pp.pretty_print_str@ == Seq::<char>::empty(),
    {
        PrettyPrinter { pretty_print_str: String::new() }
    }

    /// Appends the text of a program.
    pub fn visit_prog(&mut self, tree: &Prog)
        ensures final(self).pretty_print_str@ == old(self).pretty_print_str@ + pretty(tree@),
    {
        let ts = prog_to_tokens(tree);
        let text = render_tokens(&ts);
        self.pretty_print_str.append(text.as_str());
    }
}

} // verus!
