use sluice::lexer::get_tokens;
use sluice::parser_impl::{
    parse_connections, parse_expr, parse_initializers, parse_operand, parse_prog, parse_snippet,
    parse_snippets, parse_statement, parse_statements,
};

#[test]
fn test_parse_operand() {
    let input = r"5";
    let tokens = get_tokens(input).unwrap();
    let (operand, pos) = parse_operand(&tokens, 0).unwrap();
    println!("{:?}", operand);
    assert!(pos == tokens.len(), "token iterator is not empty");
}

#[test]
fn test_parse_expr() {
    let input = r"7%5";
    let tokens = get_tokens(input).unwrap();
    let (expr, pos) = parse_expr(&tokens, 0).unwrap();
    println!("{:?}", expr);
    assert!(pos == tokens.len(), "token iterator is not empty");
}

#[test]
fn test_parse_stmt() {
    let input = r"x=6+5;";
    let tokens = get_tokens(input).unwrap();
    let (stmt, pos) = parse_statement(&tokens, 0).unwrap();
    println!("{:?}", stmt);
    assert!(pos == tokens.len(), "token iterator is not empty");
}

#[test]
fn test_parse_stmts() {
    let input = r"x=6+5;y=7*8;";
    let tokens = get_tokens(input).unwrap();
    let (stmts, pos) = parse_statements(&tokens, 0).unwrap();
    println!("{:?}", stmts);
    assert!(pos == tokens.len(), "token iterator is not empty");
}

#[test]
fn test_parse_inits() {
    let input = r"static x=6;static y=7;";
    let tokens = get_tokens(input).unwrap();
    let (inits, pos) = parse_initializers(&tokens, 0).unwrap();
    println!("{:?}", inits);
    assert!(pos == tokens.len(), "token iterator is not empty");
}

#[test]
fn test_parse_snippet1() {
    let input = r"snippet fun(a, b, c,) { static x=6;static y=7;}";
    let tokens = get_tokens(input).unwrap();
    let (snippet, pos) = parse_snippet(&tokens, 0).unwrap();
    println!("{:?}", snippet);
    assert!(pos == tokens.len(), "token iterator is not empty");
}

#[test]
fn test_parse_snippet2() {
    let input = r"snippet fun(a, b, c,) { static x=6;x=y+5;}";
    let tokens = get_tokens(input).unwrap();
    let (snippet, pos) = parse_snippet(&tokens, 0).unwrap();
    println!("{:?}", snippet);
    assert!(pos == tokens.len(), "token iterator is not empty");
}

#[test]
fn test_parse_snippets() {
    let input = r"snippet fun(a, b, c,) { static x=6;x=y+5;} snippet fun(a, b, c,) { static x=6;x=y+5;}";
    let tokens = get_tokens(input).unwrap();
    let (snippets, pos) = parse_snippets(&tokens, 0).unwrap();
    println!("{:?}", snippets);
    assert!(pos == tokens.len(), "token iterator is not empty");
}

#[test]
fn test_parse_connections() {
    let input = r"(foo, fun) (bar, foobar)";
    let tokens = get_tokens(input).unwrap();
    let (connections, pos) = parse_connections(&tokens, 0).unwrap();
    println!("{:?}", connections);
    assert!(pos == tokens.len(), "token iterator is not empty");
}

#[test]
fn test_parse_prog() {
    let input = r"snippet fun(a, b, c, x, y, ) {
                            static x = 0;
                            a = x;
                            b = y;
                            m = 5;
                          }
                          snippet foo(a, b, c, ) {
                            static x = 1;
                            x = 5;
                          }
                          (foo, fun)
                          ";
    let tokens = get_tokens(input).unwrap();
    let (prog, pos) = parse_prog(&tokens, 0).unwrap();
    println!("{:?}", prog);
    assert!(pos == tokens.len(), "token iterator is not empty");
}

#[test]
fn test_parse_prog2() {
    let input = r"snippet fun ( a , b , c , x , y, ) {
                            static x = 0 ;
                            t1 = a >= b;
                            a = t1 ? x : a;
                            b = t1 ? y : b;
                            t2 = c >= d;
                            t3 = t2 and t1;
                            e = t2 ? m : 5;
                          }
                          snippet foo(a, b, c,) {
                            static x = 1;
                            x = 5;
                          }
                          (foo, fun)
                          ";
    let tokens = get_tokens(input).unwrap();
    let (prog, pos) = parse_prog(&tokens, 0).unwrap();
    println!("{:?}", prog);
    assert!(pos == tokens.len(), "token iterator is not empty");
}

#[test]
fn test_parse_huge_prog() {
    let input = r"snippet foo(a, b, c, ) {
                          d = 1;
                          x = d;
                        }
                        "
    .repeat(10000);
    let tokens = get_tokens(&input).unwrap();
    let (prog, pos) = parse_prog(&tokens, 0).unwrap();
    println!("{:?}", prog);
    assert!(pos == tokens.len(), "token iterator is not empty");
}
