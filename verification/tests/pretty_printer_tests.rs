use sluice::lexer::get_tokens;
use sluice::parser::parse_prog;
use sluice::pretty_printer::PrettyPrinter;

fn run_pretty_printer_and_reparse(input_program: &str) {
    // Lexing
    let tokens = get_tokens(input_program).unwrap();

    // parsing
    let parse_tree = parse_prog(&tokens).unwrap();
    println!("Parse tree: {:?}\n", parse_tree);

    // Run pretty printer
    let mut pretty_printer = PrettyPrinter::new();
    pretty_printer.visit_prog(&parse_tree);
    println!("Pretty printed code: {}", pretty_printer.pretty_print_str);

    // Reparse pretty printed code
    let new_tokens = get_tokens(&pretty_printer.pretty_print_str).unwrap();
    let new_parse_tree = parse_prog(&new_tokens).unwrap();
    assert!(new_parse_tree == parse_tree, "Old and new parse trees don't match.");
}

#[test]
fn test_pretty_printer() {
    let input_program = r"snippet fun(){
                            input a : bit<2>;
                            input b : bit<2>;
                            input c : bit<2>;
                            input x : bit<2>;
                            input y : bit<2>;
                            transient z : bit<2>;
                            transient r : bit<2>;
                            transient q : bit<2>;
                            transient m : bit<2>;
                            z = a + b;
                            q = x;
                            r = y;
                            m = 5;
                          }
                          snippet foo() {
                            input a : bit<2>;
                            input b : bit<2>;
                            input c : bit<2>;
                            persistent p : bit<2> = 1;
                            persistent m : bit<2>[3] = {1, 2, 3, };
                            transient z : bit<2>;
                            transient h : bit<2>;
                            transient q : bit<2>;
                            q = 5;
                            z[5] = 6;
                            h = z[7];
                            m = 5;
                          }
                          (foo, fun)
                          ";
    run_pretty_printer_and_reparse(input_program);
}

#[test]
fn pretty_printer_round_trips_every_construct() {
    let input_program = r"global threshold : bit<32> = 111;
                          packet n : udp (srcPort : 1234) { new_one : bit<32>; tag : hdr; }
                          @ bmv2
                          snippet fun() {
                            input q : bit<32>;
                            output r : bit<32>[2];
                            const k : bit<4>[2] = {1, 2, };
                            transient p : n;
                            transient l : bit<32>;
                            if (q > r) {
                              l = p.new_one;
                              r[1] = q - l;
                            } else {
                              l = k[q];
                            }
                            l = q ? r : 7;
                            p.tag = l and q;
                          }
                          snippet sink() { input d : bit<32>; }
                          (fun, sink): r->d, l->d,
                          ";
    run_pretty_printer_and_reparse(input_program);
}

#[test]
fn pretty_printer_text_is_space_separated_tokens() {
    let tokens = get_tokens("snippet f() { x = 10; }").unwrap();
    let tree = parse_prog(&tokens).unwrap();
    let mut pretty_printer = PrettyPrinter::new();
    pretty_printer.visit_prog(&tree);
    assert_eq!(pretty_printer.pretty_print_str, "snippet f ( ) { x = 10 ; } ");
}
