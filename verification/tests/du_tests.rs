use sluice::define_before_use_pass::{DefineBeforeUseError, DefineBeforeUsePass};
use sluice::lexer::get_tokens;
use sluice::parser_impl::parse_prog;

fn run_def_use(input_program: &str) {
    // Lexing
    let tokens = get_tokens(input_program).unwrap();

    // parsing
    let (parse_tree, pos) = parse_prog(&tokens, 0).unwrap();
    assert!(pos == tokens.len(), "token_iter is not empty.");
    println!("Parse tree: {:?}\n", parse_tree);

    // Check that identifiers are defined before use
    let mut definitions: Vec<String> = Vec::new();
    match DefineBeforeUsePass::visit_prog(&parse_tree, &mut definitions) {
        Ok(()) => {},
        Err(DefineBeforeUseError::AlreadyDefined(x)) => panic!("Can't initialize {} that is already defined", x),
        Err(DefineBeforeUseError::UsedBeforeDefinition(x)) => panic!("{} used before definition", x),
        Err(DefineBeforeUseError::ConnectedButUndefined(x)) => panic!("{} connected, but not defined", x),
    }
}

#[test]
#[should_panic(expected = "y used before definition")]
fn test_du_undefined() {
    let input_program = r"snippet fun(x, ) {
                          b = y;
                          m = 5;
                        }
                        ";
    run_def_use(input_program);
}

#[test]
fn test_du_defined_in_arg_list() {
    let input_program = r"snippet foo(a, b, c, ) {
                          x = a;
                        }
                        ";
    run_def_use(input_program);
}

#[test]
fn test_du_defined_in_prog() {
    let input_program = r"snippet foo(a, b, c, ) {
                          d = 1;
                          x = d;
                        }
                        ";
    run_def_use(input_program);
}

#[test]
#[should_panic(expected = "Can't initialize x that is already defined")]
fn test_du_redefined() {
    let input_program = r"snippet fun(a, b, c, x, y, ) {
                          static x = 0;
                        }
                        ";
    run_def_use(input_program);
}

#[test]
#[should_panic(expected = "foo connected, but not defined")]
fn test_du_undefined_snippet() {
    let input_program = r"(foo, fun)";
    run_def_use(input_program);
}
