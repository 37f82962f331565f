use sluice::code_gen::{CodeGen, CodeGenCollector};
use sluice::def_use::DefUse;
use sluice::lexer::get_tokens;
use sluice::parser::parse_prog;

fn run_code_gen(input_program: &str) -> String {
    // Lexing
    let tokens = get_tokens(input_program).unwrap();

    // parsing
    let parse_tree = parse_prog(&tokens).unwrap();
    println!("Parse tree: {:?}\n", parse_tree);

    // Check that identifiers are defined before use
    let mut def_use = DefUse::new();
    def_use.visit_prog(&parse_tree).unwrap();

    // Run code generator
    let mut collector = CodeGenCollector { generated_string: "".to_string(), snippet_name: "fun".to_string() };
    CodeGen::visit_prog(&parse_tree, &mut collector);
    collector.generated_string
}

#[test]
fn test_code_gen() {
    let input_program = r"snippet fun() {
                            input x : bit<2>;
                            transient b : bit<2>;
                            persistent m : bit<3> = 5;
                            b = x;
                          }
                          ";
    let generated = run_code_gen(input_program);
    assert_eq!(generated, "module fun()\n\nendmodule");
}

#[test]
fn code_gen_ignores_other_snippets() {
    let input_program = r"snippet foo() {
                            input x : bit<2>;
                          }
                          snippet fun() {
                          }
                          ";
    assert_eq!(run_code_gen(input_program), "module fun()\n\nendmodule");
    let tokens = get_tokens("snippet bar() { }").unwrap();
    let tree = parse_prog(&tokens).unwrap();
    let mut collector = CodeGenCollector { generated_string: String::new(), snippet_name: "fun".to_string() };
    CodeGen::visit_prog(&tree, &mut collector);
    assert_eq!(collector.generated_string, "");
}
