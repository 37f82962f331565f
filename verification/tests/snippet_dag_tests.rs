use sluice::grammar::{
    Identifier, Prog, Statement, TypeQualifier, VarInfo, VarType, VariableDecl, Expr, ExprRight, Operand, LValue,
};
use sluice::lexer::get_tokens;
use sluice::parser::parse_prog;
use sluice::snippet_dag::{
    branch_removal, create_dag_nodes, create_field_types, create_packet_map, insert_packet_decls, copy_statement,
    decl_node, stmt_node, TypeMap,
};
use sluice::trans_snippet::{Dag, DagNodeType, NameMap};

fn parse(program: &str) -> Prog {
    let tokens = get_tokens(program).unwrap();
    parse_prog(&tokens).unwrap()
}

fn empty_dag() -> Dag {
    Dag { snippet_id: "s".to_string(), device_type: "bmv2".to_string(), device_vector: vec![], dag_vector: vec![] }
}

const IF_ELSE: &str = "@ bmv2
    snippet fun(){
        transient z : bit<1>;
        transient r : bit<32>;
        transient q : bit<32>;
        transient m : bit<32>;
        transient l : bit<32>;
        transient i : bit<32>;
        persistent reg1 : bit<32> = 0;
        persistent reg2 : bit<32> = 0;
        persistent reg3 : bit<32> = 0;
        q = 10;
        r = 5;
        if(q > r) {
            l = reg3;
            i = q + l;
        } else {
            l = reg1;
            i = q - l;
        }
        reg1 = 11;
        z = q >= 10;
        m = z ? q : r;
        reg2 = i + 5;
    }";

const TERNARY: &str = "@ bmv2
    snippet first1() {
        transient z : bit<1>;
        transient r : bit<32>;
        transient q : bit<32>;
        transient m : bit<32>;
        transient l : bit<32>;
        transient i : bit<32>;
        persistent reg1 : bit<32> = 0;
        persistent reg2 : bit<32> = 0;
        persistent reg3 : bit<32> = 0;
        transient if_block_tmp_2 : bit<1>;
        transient tmp_0_if_2 : bit<32>;
        transient tmp_1_if_3 : bit<32>;
        q = 10;
        r = 5;
        if_block_tmp_2 = q > r;
        l = if_block_tmp_2 ? reg3 : l;
        tmp_0_if_2 = q + l;
        i = if_block_tmp_2 ? tmp_0_if_2 : i;
        l = if_block_tmp_2 ? l : reg1;
        tmp_1_if_3 = q - l;
        i = if_block_tmp_2 ? i : tmp_1_if_3;
        reg1 = 11;
        z = q >= 10;
        m = z ? q : r;
        reg2 = i + 5;
    }";

#[test]
fn branch_removal_gives_the_hand_written_ternaries() {
    let source = parse(IF_ELSE);
    let expected = parse(TERNARY);
    let mut dag = empty_dag();
    branch_removal(&mut dag, &NameMap::new(), &source.snippets.snippet_vector[0], &TypeMap::new());
    let want = &expected.snippets.snippet_vector[0];
    let decls: Vec<&VariableDecl> = dag.dag_vector.iter().filter_map(|n| match &n.node_type {
        DagNodeType::Decl(d) => Some(d),
        _ => None,
    }).collect();
    let stmts: Vec<&Statement> = dag.dag_vector.iter().filter_map(|n| match &n.node_type {
        DagNodeType::Stmt(s) => Some(s),
        _ => None,
    }).collect();
    let want_decls: Vec<&VariableDecl> = want.variable_decls.decl_vector.iter().collect();
    let want_stmts: Vec<&Statement> = want.ifblocks.ifblock_vector.iter().flat_map(|b| b.statements.stmt_vector.iter()).collect();
    assert_eq!(decls, want_decls);
    assert_eq!(stmts, want_stmts);
    assert_eq!(dag.dag_vector.len(), 12 + 13);
    assert!(dag.dag_vector.iter().all(|n| n.p4_code.p4_control.is_empty() && n.next_nodes.is_empty() && n.pre_condition.is_none()));
}

#[test]
fn parsed_else_block_tests_the_bit_of_its_if_block() {
    let source = parse(IF_ELSE);
    let blocks = &source.snippets.snippet_vector[0].ifblocks.ifblock_vector;
    assert_eq!((blocks[0].condtype, blocks[0].id), (3, 1));
    assert_eq!((blocks[1].condtype, blocks[1].id), (1, 2));
    assert_eq!((blocks[2].condtype, blocks[2].id), (2, 3));
    assert_eq!((blocks[3].condtype, blocks[3].id), (3, 4));
    let mut dag = empty_dag();
    branch_removal(&mut dag, &NameMap::new(), &source.snippets.snippet_vector[0], &TypeMap::new());
    let names: Vec<String> = dag.dag_vector.iter().map(|n| match &n.node_type {
        DagNodeType::Decl(d) => d.identifier.id_name.clone(),
        DagNodeType::Stmt(s) => match &s.expr.op1 {
            Operand::LValue(LValue::Scalar(id)) => id.id_name.clone(),
            _ => String::new(),
        },
        DagNodeType::Cond(_) => String::new(),
    }).collect();
    assert_eq!(names[9], "if_block_tmp_2");
    assert_eq!(names[10], "tmp_0_if_2");
    assert_eq!(names[11], "tmp_1_if_3");
    // l = if_block_tmp_2 ? l : reg1, the first statement of the else block
    assert_eq!(names[12 + 6], "if_block_tmp_2");
}

#[test]
fn create_dag_nodes_builds_one_graph_per_snippet() {
    let prog = parse("snippet a() { transient x : bit<8>; x = 1; } @ tofino snippet b() { transient y : bit<4>; if (y > 1) { y = 2; } }");
    let dags = create_dag_nodes(&prog.snippets, &NameMap::new(), &prog.packets, &prog.packets);
    assert_eq!(dags.len(), 2);
    assert_eq!(dags[0].snippet_id, "a");
    assert_eq!(dags[1].snippet_id, "b");
    assert_eq!(dags[1].device_type, "tofino");
    assert_eq!(dags[0].dag_vector.len(), 2);
    // y, if_block_tmp_1, if_block_tmp_1 = y > 1, y = if_block_tmp_1 ? 2 : y
    assert_eq!(dags[1].dag_vector.len(), 4);
    match &dags[1].dag_vector[1].node_type {
        DagNodeType::Decl(d) => {
            assert_eq!(d.identifier.id_name, "if_block_tmp_1");
            assert_eq!(d.var_type, VarType { var_info: VarInfo::BitArray(1, 1), type_qualifier: TypeQualifier::Transient });
        },
        _ => panic!("expected the condition bit"),
    }
    match &dags[1].dag_vector[3].node_type {
        DagNodeType::Stmt(s) => {
            let want = Statement {
                lvalue: LValue::Scalar(Identifier { id_name: "y".to_string() }),
                expr: Expr {
                    op1: Operand::LValue(LValue::Scalar(Identifier { id_name: "if_block_tmp_1".to_string() })),
                    expr_right: ExprRight::Cond(
                        Operand::Value(sluice::grammar::Value { value: 2 }),
                        Operand::LValue(LValue::Scalar(Identifier { id_name: "y".to_string() })),
                    ),
                },
            };
            assert_eq!(*s, want);
        },
        _ => panic!("expected the ternary"),
    }
}

#[test]
fn temporary_of_a_packet_field_has_the_field_width() {
    let prog = parse("packet p : eth (etherType : 2048) { f : bit<12>; } snippet s() { transient a : bit<8>; if (a > 1) { p.f = a + 1; } }");
    let pmap = create_packet_map(&prog.packets, &sluice::grammar::Packets { packet_vector: vec![] });
    let types = create_field_types(&prog.packets, &sluice::grammar::Packets { packet_vector: vec![] });
    let mut dag = empty_dag();
    branch_removal(&mut dag, &pmap, &prog.snippets.snippet_vector[0], &types);
    // a, if_block_tmp_1, tmp_0_if_1, then three statements
    assert_eq!(dag.dag_vector.len(), 6);
    match &dag.dag_vector[2].node_type {
        DagNodeType::Decl(d) => {
            assert_eq!(d.identifier.id_name, "tmp_0_if_1");
            assert_eq!(d.var_type.var_info, VarInfo::BitArray(12, 1));
            assert!(d.initial_values.is_empty());
        },
        _ => panic!("expected the temporary"),
    }
}

#[test]
fn packet_map_and_field_types() {
    let lib = parse("packet t : eth (etherType : 2048) { x : bit<4>; y : bit<6>; } snippet s() { }");
    let prog = parse("packet p : udp (srcPort : 1234) { a : bit<8>; } snippet s() { }");
    let pmap = create_packet_map(&prog.packets, &lib.packets);
    assert_eq!(pmap.get(&"p.tx".to_string()), Some(&"t.x".to_string()));
    assert_eq!(pmap.get(&"p.ty".to_string()), Some(&"t.y".to_string()));
    assert_eq!(pmap.get(&"p.a".to_string()), Some(&"p.a".to_string()));
    assert_eq!(pmap.get(&"t.x".to_string()), None);
    let types = create_field_types(&prog.packets, &lib.packets);
    assert_eq!(types.get(&"t.y".to_string()).map(|t| &t.var_info), Some(&VarInfo::BitArray(6, 1)));
    assert_eq!(types.get(&"p.a".to_string()).map(|t| &t.var_info), Some(&VarInfo::BitArray(8, 1)));
    assert!(types.get(&"p.tx".to_string()).is_none());
}

#[test]
fn packet_declarations_go_after_the_declarations() {
    let lib = parse("packet t : eth (etherType : 2048) { x : bit<4>; } snippet s() { }");
    let prog = parse("packet p : udp (srcPort : 1234) { a : bit<8>; } snippet s() { transient v : bit<8>; v = 1; }");
    let sn = &prog.snippets.snippet_vector[0];
    let mut dag = empty_dag();
    dag.dag_vector.push(decl_node(sluice::snippet_dag::copy_variable_decl(&sn.variable_decls.decl_vector[0])));
    dag.dag_vector.push(stmt_node(copy_statement(&sn.ifblocks.ifblock_vector[0].statements.stmt_vector[0])));
    insert_packet_decls(&mut dag, &prog.packets, &lib.packets);
    let names: Vec<String> = dag.dag_vector.iter().map(|n| match &n.node_type {
        DagNodeType::Decl(d) => d.identifier.id_name.clone(),
        DagNodeType::Stmt(_) => "stmt".to_string(),
        DagNodeType::Cond(_) => "cond".to_string(),
    }).collect();
    assert_eq!(names, vec!["v", "p.a", "p.tx", "stmt"]);
}

#[test]
fn type_map_later_entry_hides_earlier() {
    let mut m = TypeMap::new();
    m.insert("x".to_string(), VarType { var_info: VarInfo::BitArray(8, 1), type_qualifier: TypeQualifier::Transient });
    m.insert("x".to_string(), VarType { var_info: VarInfo::BitArray(16, 2), type_qualifier: TypeQualifier::Persistent });
    let t = m.get(&"x".to_string()).unwrap();
    assert_eq!(t.var_info, VarInfo::BitArray(16, 2));
    assert_eq!(t.type_qualifier, TypeQualifier::Persistent);
    assert!(m.get(&"y".to_string()).is_none());
}
