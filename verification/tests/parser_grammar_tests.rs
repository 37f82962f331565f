use sluice::grammar::{ExprRight, LValue, Operand, TypeQualifier, VarInfo};
use sluice::lexer::get_tokens;
use sluice::parser::parse_prog;
use sluice::parsing::ParseError;

#[test]
fn parse_prog_declarations_and_blocks() {
    let input = r"snippet fun() {
                    input a : bit<2>;
                    persistent x : bit<3>[4] = {4, 5, 6, 7, };
                    transient t : bit<1>;
                    if (a > 1) { t = 1; } else { t = 0; }
                    x[2] = a + t;
                  }";
    let tokens = get_tokens(input).unwrap();
    let prog = parse_prog(&tokens).unwrap();
    let snippet = &prog.snippets.snippet_vector[0];
    assert_eq!(snippet.snippet_id.id_name, "fun");
    assert_eq!(snippet.device_id.id_name, "");
    let decls = &snippet.variable_decls.decl_vector;
    assert_eq!(decls.len(), 3);
    assert_eq!(decls[1].var_type.type_qualifier, TypeQualifier::Persistent);
    assert_eq!(decls[1].var_type.var_info, VarInfo::BitArray(3, 4));
    assert_eq!(decls[1].initial_values.len(), 4);
    let blocks = &snippet.ifblocks.ifblock_vector;
    assert_eq!(blocks.len(), 3);
    assert_eq!((blocks[0].id, blocks[0].condtype), (1, 1));
    assert_eq!((blocks[1].id, blocks[1].condtype), (2, 2));
    assert_eq!((blocks[2].id, blocks[2].condtype), (3, 3));
    match &blocks[2].statements.stmt_vector[0].lvalue {
        LValue::Array(id, addr) => {
            assert_eq!(id.id_name, "x");
            assert_eq!(**addr, Operand::Value(sluice::grammar::Value { value: 2 }));
        }
        _ => panic!("expected an array element"),
    }
    match &blocks[2].statements.stmt_vector[0].expr.expr_right {
        ExprRight::BinOp(op, _) => assert_eq!(*op, sluice::grammar::BinOpType::Plus),
        _ => panic!("expected a binary operation"),
    }
}

#[test]
fn parse_prog_dot_operator() {
    let tokens = get_tokens("snippet f() { a.x = 1; }").unwrap();
    let prog = parse_prog(&tokens).unwrap();
    match &prog.snippets.snippet_vector[0].ifblocks.ifblock_vector[0].statements.stmt_vector[0].lvalue {
        LValue::Field(p, f) => {
            assert_eq!(p.id_name, "a");
            assert_eq!(f.id_name, "x");
        }
        _ => panic!("expected a field"),
    }
}

#[test]
fn parse_prog_connections_with_pairs() {
    let tokens = get_tokens("(foo, fun): a->b, c->x, (bar, foobar)").unwrap();
    let prog = parse_prog(&tokens).unwrap();
    let cs = &prog.connections.connection_vector;
    assert_eq!(cs.len(), 2);
    assert_eq!(cs[0].variable_pairs.len(), 2);
    assert_eq!(cs[0].variable_pairs[1].to_var.id_name, "x");
    assert_eq!(cs[1].from_snippet.id_name, "bar");
}

#[test]
fn parse_prog_errors() {
    // missing comma between values
    let tokens = get_tokens("snippet f() { persistent x : bit<3> = {4, 5, 6, 7}; }").unwrap();
    assert_eq!(parse_prog(&tokens), Err(ParseError::UnexpectedToken(21)));
    // initial value too wide for its bit vector
    let tokens = get_tokens("snippet f() { persistent x : bit<2> = 4; }").unwrap();
    assert_eq!(parse_prog(&tokens), Err(ParseError::ValueOutOfRange(5)));
    // zero bit width
    let tokens = get_tokens("snippet f() { persistent x : bit<0> = 4; }").unwrap();
    assert_eq!(parse_prog(&tokens), Err(ParseError::BitWidthZero(10)));
    // wrong number of initial values
    let tokens = get_tokens("snippet f() { persistent x : bit<32>[2] = {1, 2, 3,}; }").unwrap();
    assert_eq!(parse_prog(&tokens), Err(ParseError::WrongValueCount(5)));
    // unterminated snippet
    let tokens = get_tokens("snippet f() { x = 1;").unwrap();
    assert_eq!(parse_prog(&tokens), Err(ParseError::UnexpectedEnd));
    // bit width can be at most 32
    let tokens = get_tokens("snippet f() { persistent x : bit<33> = 4; }").unwrap();
    assert_eq!(parse_prog(&tokens), Err(ParseError::BitWidthTooLarge(10)));
    // a 32-bit vector takes any 32-bit value
    let tokens = get_tokens("snippet f() { persistent x : bit<32> = 4294967295; }").unwrap();
    assert!(parse_prog(&tokens).is_ok());
}

#[test]
fn test_parse_persistent_decls_bitwidth33() {
    let tokens = get_tokens("snippet f() { persistent x : bit<33> = 4; }").unwrap();
    assert_eq!(parse_prog(&tokens), Err(ParseError::BitWidthTooLarge(10)));
}

#[test]
fn test_parse_persistent_decls_bitwidth0() {
    let tokens = get_tokens("snippet f() { persistent x : bit<0> = 4; }").unwrap();
    assert_eq!(parse_prog(&tokens), Err(ParseError::BitWidthZero(10)));
}
