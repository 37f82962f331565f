use sluice::lexer::get_tokens;
use sluice::parser::parse_prog;
use sluice::symbol_table_pass::SymbolTablePass;
use sluice::tree_fold::TreeFold;

#[test]
fn test_symbol_table_collects_names_once() {
    let program = r"global g : bit<8> = 1;
             snippet fun() {
                 input x : bit<2>;
                 persistent a : bit<8>[4] = {1, 2, 3, 4, };
                 a[x] = x + g;
                 m = a[2];
               }
             snippet gun() {
                 input y : bit<2>;
               }
             (fun, gun) : x -> y,
             ";
    let tokens = get_tokens(program).unwrap();
    let prog = parse_prog(&tokens).unwrap();
    let mut pass = SymbolTablePass::new();
    pass.visit_prog(&prog);
    let mut names = pass.symbol_table.clone();
    names.sort();
    assert_eq!(names, vec!["a", "fun", "g", "gun", "m", "x", "y"]);
}

#[test]
fn test_symbol_table_starts_empty() {
    let pass = SymbolTablePass::new();
    assert!(pass.symbol_table.is_empty());
}
