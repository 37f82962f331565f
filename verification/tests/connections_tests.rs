use sluice::offload::{create_offload_header, DFS_visit};
use sluice::connections::{create_RAW_connections, create_dependency_dag, strip_quote_chars};
use sluice::grammar::{BinOpType, Expr, ExprRight, Identifier, LValue, Operand, Packets, Statement, Value};
use sluice::lexer::get_tokens;
use sluice::parser::parse_prog;
use sluice::snippet_dag::{create_dag_nodes, stmt_node};
use sluice::trans_snippet::{check_clone_condition, get_pre_condition, get_pre_condition_op, Dag, IndexMap, NameMap};

fn dag_of(program: &str) -> Dag {
    let tokens = get_tokens(program).unwrap();
    let prog = parse_prog(&tokens).unwrap();
    let empty = Packets { packet_vector: vec![] };
    create_dag_nodes(&prog.snippets, &NameMap::new(), &empty, &empty).remove(0)
}

fn scalar(name: &str) -> LValue {
    LValue::Scalar(Identifier { id_name: name.to_string() })
}

#[test]
fn raw_edges_follow_reads_of_written_variables() {
    let mut dag = dag_of("snippet s() { transient a : bit<8>; transient b : bit<8>; a = 1; b = a + 1; a = b; }");
    create_RAW_connections(&mut dag);
    let nexts: Vec<Vec<usize>> = dag.dag_vector.iter().map(|n| n.next_nodes.clone()).collect();
    assert_eq!(nexts, vec![vec![], vec![], vec![3], vec![4], vec![]]);
    assert!(dag.dag_vector.iter().all(|n| n.prev_nodes.is_empty()));
}

#[test]
fn raw_edges_for_every_later_reader() {
    let mut dag = dag_of("snippet s() { transient a : bit<8>; transient b : bit<8>; a = 1; b = a; b = a + a; }");
    create_RAW_connections(&mut dag);
    assert_eq!(dag.dag_vector[2].next_nodes, vec![3, 4]);
    assert_eq!(dag.dag_vector[3].next_nodes, Vec::<usize>::new());
}

#[test]
fn dependency_listing_and_edges() {
    let mut dag = dag_of("snippet s() { transient a : bit<8> = 3; persistent r : bit<4>[2] = {1, 2, }; a = r + 1; r = a ? 5 : a; }");
    create_RAW_connections(&mut dag);
    let (listing, edges) = create_dependency_dag(&dag);
    assert_eq!(
        listing,
        "Transient a : BitArray(8, 1)[3,]\nPersistent r : BitArray(4, 2)[1,2,]\na = r + 1\nr = a ? 5 : a\n"
    );
    assert_eq!(edges, "[]:[]\n[]:[]\n[3]:[]\n[]:[]\n");
}

#[test]
fn quotes_and_backslashes_are_removed() {
    assert_eq!(strip_quote_chars("\"a\"[\"\\\"i\\\"\"]"), "a[i]");
    assert_eq!(strip_quote_chars(""), "");
}

#[test]
fn pre_condition_by_name() {
    let mut m = IndexMap::new();
    m.insert("c".to_string(), 7);
    m.insert("p . f".to_string(), 9);
    assert_eq!(get_pre_condition(&m, &scalar("c")), Some(7));
    let field = LValue::Field(Identifier { id_name: "p".to_string() }, Identifier { id_name: "f".to_string() });
    assert_eq!(get_pre_condition(&m, &field), Some(9));
    assert_eq!(get_pre_condition(&m, &scalar("d")), None);
    assert_eq!(get_pre_condition_op(&m, &Operand::LValue(scalar("c"))), Some(7));
    assert_eq!(get_pre_condition_op(&m, &Operand::Value(Value { value: 1 })), None);
}

#[test]
fn condition_statements_are_copied() {
    let cond = Statement {
        lvalue: scalar("c"),
        expr: Expr { op1: Operand::LValue(scalar("q")), expr_right: ExprRight::BinOp(BinOpType::GreaterThan, Operand::LValue(scalar("r"))) },
    };
    let node = stmt_node(sluice::snippet_dag::copy_statement(&cond));
    assert_eq!(check_clone_condition(Some(&node)), Some(cond));
    let with_value = Statement {
        lvalue: scalar("c"),
        expr: Expr { op1: Operand::LValue(scalar("q")), expr_right: ExprRight::BinOp(BinOpType::GreaterThan, Operand::Value(Value { value: 3 })) },
    };
    let node = stmt_node(with_value);
    assert_eq!(check_clone_condition(Some(&node)), None);
    assert_eq!(check_clone_condition(None), None);
}

#[test]
fn depth_first_visit_blackens_white_reachable_nodes() {
    let mut dag = dag_of("snippet s() { transient a : bit<8>; transient b : bit<8>; a = 1; b = a + 1; a = b; }");
    create_RAW_connections(&mut dag);
    let mut offload = Vec::new();
    let mut color = vec![2, 2, 0, 0, 0];
    DFS_visit(&dag.dag_vector, 2, &mut color, &mut offload);
    assert_eq!(color, vec![2, 2, 2, 2, 2]);
    let mut color = vec![2, 2, 0, 1, 0];
    DFS_visit(&dag.dag_vector, 2, &mut color, &mut offload);
    assert_eq!(color, vec![2, 2, 2, 1, 0]);
    let mut color = vec![0, 0, 0, 0, 0];
    DFS_visit(&dag.dag_vector, 4, &mut color, &mut offload);
    assert_eq!(color, vec![0, 0, 0, 0, 2]);
    assert!(offload.is_empty());
}

#[test]
fn offload_colouring_leaves_the_graph_unchanged() {
    let mut dag = dag_of("snippet s() { transient a : bit<8>; transient b : bit<8>; a = 1; b = a + 1; a = b; }");
    create_RAW_connections(&mut dag);
    let before = format!("{:?}", dag);
    create_offload_header(&mut dag);
    assert_eq!(format!("{:?}", dag), before);
}
