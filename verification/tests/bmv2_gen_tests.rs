use sluice::bmv2_gen::{
    fill_p4code, get_NEW_ACTION, get_new_eq_table, handle_binop_refs_assignment, handle_binop_refval_assignment,
    handle_binop_vals_assignment, handle_persistent_decl, handle_read_register, handle_read_register_v2,
    handle_ref_assignment, handle_statement, handle_ternary_assignment, handle_transient_decl, handle_value_assignment,
    GenState, RegisterRead,
};
use sluice::bmv2_program::{gen_p4_parser, gen_p4_metadata, gen_p4_program};
use sluice::grammar::{BinOpType, Identifier, Operand, Packets, TypeQualifier, Value, VarInfo};
use sluice::lexer::get_tokens;
use sluice::parser::parse_prog;
use sluice::trans_snippet::{Dag, DagNode, DagNodeType, DeclMap, NameMap, P4Code, P4Header, VarDecl};

fn decl(id: &str, tq: TypeQualifier) -> VarDecl {
    VarDecl { id: id.to_string(), var_info: VarInfo::BitArray(8, 1), type_qualifier: tq }
}

const TABLE1: &str = "table table1 {\n    actions {\n        action1;\n    }\n}\n";
const TABLE2: &str = "table table2 {\n    actions {\n        action2;\n    }\n}\n";

#[test]
fn new_action_opens_numbered_action_and_table() {
    let mut st = GenState::new();
    let (c, a, t) = get_NEW_ACTION(&mut st);
    assert_eq!(c, "    apply(table1);\n");
    assert_eq!(a, "action action1 () {\n");
    assert_eq!(t, TABLE1);
    assert_eq!((st.action_count, st.table_count), (2, 2));
    let (c, _, _) = get_NEW_ACTION(&mut st);
    assert_eq!(c, "    apply(table2);\n");
}

#[test]
fn read_register_in_own_action_and_in_place() {
    let mut st = GenState::new();
    let r = VarDecl { id: "r".to_string(), var_info: VarInfo::BitArray(32, 4), type_qualifier: TypeQualifier::Persistent };
    let (c, a, t) = handle_read_register(&r, 3, &mut st);
    assert_eq!(c, "    apply(table1);\n");
    assert_eq!(a, "action action1 () {\n    register_read(mdata.r, r, 3);\n}\n");
    assert_eq!(t, TABLE1);
    let (c, a, t) = handle_read_register_v2(&r, 3);
    assert_eq!((c.as_str(), a.as_str(), t.as_str()), ("", "    register_read(mdata.r, r, 3);\n", ""));
}

#[test]
fn value_assignment_by_qualifier() {
    let mut st = GenState::new();
    let (c, a, t, m) = handle_value_assignment(&decl("m", TypeQualifier::Transient), 0, 5, &mut st);
    assert_eq!(c, "    apply(table1);\n");
    assert_eq!(a, "action action1 () {\n    modify_field(mdata.m, 5);\n}\n");
    assert_eq!(t, TABLE1);
    assert_eq!(m, "");
    let mut st = GenState::new();
    let (_, a, _, _) = handle_value_assignment(&decl("p", TypeQualifier::Persistent), 2, 7, &mut st);
    assert_eq!(a, "action action1 () {\n    register_write(p, 2, 7);\n}\n");
    let mut st = GenState::new();
    let (_, a, _, _) = handle_value_assignment(&decl("ipv4.ttl", TypeQualifier::Field), 0, 7, &mut st);
    assert_eq!(a, "action action1 () {\n    modify_field(ipv4.ttl, 7);\n}\n");
    let mut st = GenState::new();
    let r = handle_value_assignment(&decl("i", TypeQualifier::Input), 0, 7, &mut st);
    assert_eq!(r, (String::new(), String::new(), String::new(), String::new()));
    assert_eq!(st, GenState::new());
}

#[test]
fn ref_assignment_reads_register_first() {
    let mut st = GenState::new();
    let (c, a, t, _) = handle_ref_assignment(&decl("x", TypeQualifier::Transient), 0, &decl("r", TypeQualifier::Persistent), 2,
        RegisterRead::OwnAction, &mut st);
    assert_eq!(c, "    apply(table1);\n    apply(table2);\n");
    assert_eq!(a, "action action1 () {\n    register_read(mdata.r, r, 2);\n}\naction action2 () {\n    modify_field(mdata.x, mdata.r);\n}\n");
    assert_eq!(t, format!("{}{}", TABLE1, TABLE2));
    let mut st = GenState::new();
    let (_, a, _, _) = handle_ref_assignment(&decl("p", TypeQualifier::Persistent), 1, &decl("i", TypeQualifier::Input), 3,
        RegisterRead::InPlace, &mut st);
    assert_eq!(a, "action action1 () {\n    register_write(p, 3, i);\n}\n");
}

#[test]
fn eq_table_numbers_and_counters() {
    let mut st = GenState::new();
    let (c, a, t) = get_new_eq_table(&"mdata.temp1".to_string(), &decl("c", TypeQualifier::Transient), true, &mut st);
    assert_eq!(c, "    apply(eqtable1);\n");
    assert_eq!(a, "action eqaction1_0 () {\n    modify_field(mdata.c, 0); \n}\naction eqaction1_1 () {\n    modify_field(mdata.c, 1); \n}\n");
    assert_eq!(t, "table eqtable1 {\n    reads {\n        mdata.temp1 : exact;\n    }\n    actions {\n        eqaction1_0;\n        eqaction1_1;\n    }\n}\n");
    assert_eq!(st.eq_table_count, 3);
}

#[test]
fn binop_refs_add_with_register_operand() {
    let mut st = GenState::new();
    let map = DeclMap::new();
    let (c, a, t, m) = handle_binop_refs_assignment(&decl("z", TypeQualifier::Transient), 0, &decl("a", TypeQualifier::Transient), 0,
        BinOpType::Plus, &decl("b", TypeQualifier::Persistent), 4, &map, &mut st);
    assert_eq!(c, "    apply(table1);\n    apply(table2);\n");
    assert_eq!(a, "action action1 () {\n    register_read(mdata.b, b, 4);\n}\naction action2 () {\n    add(mdata.z,mdata.a,mdata.b);\n}\n");
    assert_eq!(t, format!("{}{}", TABLE1, TABLE2));
    assert_eq!(m, "");
}

#[test]
fn binop_refval_comparison_is_a_branch() {
    let mut st = GenState::new();
    let map = DeclMap::new();
    let (c, a, t, _) = handle_binop_refval_assignment(&decl("c", TypeQualifier::Transient), 0, &decl("x", TypeQualifier::Input), 0,
        BinOpType::Equal, 3, &map, true, &mut st);
    assert_eq!(c, "    if (x == 3) {\n        apply(table1);\n    } else {\n        apply(table2);\n    }\n");
    assert_eq!(a, "action action1 () {\n    modify_field(mdata.c, 1); \n}\naction action2 () {\n    modify_field(mdata.c, 0); \n}\n");
    assert_eq!(t, format!("{}{}", TABLE1, TABLE2));
}

#[test]
fn binop_refval_value_first_and_vals() {
    let mut st = GenState::new();
    let map = DeclMap::new();
    let (_, a, _, _) = handle_binop_refval_assignment(&decl("p", TypeQualifier::Persistent), 2, &decl("x", TypeQualifier::Input), 0,
        BinOpType::Minus, 9, &map, false, &mut st);
    assert_eq!(a, "action action1 () {\n    subtract(mdata.p,9,\nx);    register_write(p, 2, mdata.p);\n}\n");
    let mut st = GenState::new();
    let (_, a, _, _) = handle_binop_vals_assignment(&decl("f", TypeQualifier::Field), 0, 4, BinOpType::BooleanOr, 5, &map, &mut st);
    assert_eq!(a, "action action1 () {\n    bit_or(f,4, 5);\n}\n");
    let mut st = GenState::new();
    let r = handle_binop_vals_assignment(&decl("f", TypeQualifier::Field), 0, 4, BinOpType::Mul, 5, &map, &mut st);
    assert_eq!(r.1, "");
}

#[test]
fn ternary_assignment_matches_on_condition() {
    let mut st = GenState::new();
    let map = DeclMap::new();
    let (c, a, t, _) = handle_ternary_assignment(&decl("l", TypeQualifier::Transient), 0, &decl("cond", TypeQualifier::Transient),
        &Operand::Value(Value { value: 1 }), &Operand::Value(Value { value: 2 }), &map, &mut st);
    assert_eq!(c, "    apply(table1);\n");
    assert_eq!(a, "action action1 () {\n    modify_field(mdata.l, 1);\n}\naction action2 () {\n    modify_field(mdata.l, 2);\n}\n");
    assert_eq!(t, "table table1 {\n    reads {\n        mdata.cond : exact;\n    }\n    actions {\n        action1;\n        action2;\n    }\n}\n");
    assert_eq!((st.action_count, st.table_count, st.new_action), (3, 2, true));
}

#[test]
fn declaration_headers() {
    let tokens = get_tokens("snippet s() { transient x : bit<8> = 5; persistent r : bit<32>[4] = {1, 2, 3, 4, }; }").unwrap();
    let prog = parse_prog(&tokens).unwrap();
    let decls = &prog.snippets.snippet_vector[0].variable_decls.decl_vector;
    let h = handle_transient_decl(&decls[0]);
    assert_eq!(h.meta, "x : 8;\n");
    assert_eq!(h.meta_init, "set_metadata(mdata.x,5);\n");
    let h = handle_persistent_decl(&decls[1]);
    assert_eq!(h.register, "register r {\n     width : 32; \n     instance_count : 4;\n}\n");
    assert_eq!(h.meta, "r : 32;\n");
    assert_eq!(h.meta_init, "set_metadata(mdata.r,1);\n");
}

fn node(node_type: DagNodeType) -> DagNode {
    DagNode {
        node_type,
        p4_code: P4Code { p4_header: P4Header::empty(), p4_control: String::new(), p4_actions: String::new(), p4_commons: String::new() },
        next_nodes: vec![],
        prev_nodes: vec![],
        pre_condition: None,
    }
}

fn dag_of(program: &str) -> Dag {
    let tokens = get_tokens(program).unwrap();
    let mut prog = parse_prog(&tokens).unwrap();
    let snippet = prog.snippets.snippet_vector.remove(0);
    let mut nodes = Vec::new();
    for d in snippet.variable_decls.decl_vector {
        nodes.push(node(DagNodeType::Decl(d)));
    }
    for b in snippet.ifblocks.ifblock_vector {
        for s in b.statements.stmt_vector {
            nodes.push(node(DagNodeType::Stmt(s)));
        }
    }
    Dag { snippet_id: "s".to_string(), device_type: String::new(), device_vector: vec![], dag_vector: nodes }
}

#[test]
fn fill_p4code_fills_each_node() {
    let mut dag = dag_of("snippet s() { transient t : bit<8>; input a : bit<8>; t = a + 1; }");
    let mut st = GenState::new();
    let empty = Packets { packet_vector: vec![] };
    fill_p4code(&NameMap::new(), &NameMap::new(), &mut dag, &empty, &empty, &mut st);
    let n = &dag.dag_vector;
    assert_eq!(n[0].p4_code.p4_header.meta, "t : 8;\n");
    assert_eq!(n[1].p4_code.p4_header.meta, "");
    assert_eq!(n[2].p4_code.p4_control, "    apply(table1);\n");
    assert_eq!(n[2].p4_code.p4_actions, "action action1 () {\n    add(mdata.t,a,1);\n}\n");
    assert_eq!(n[2].p4_code.p4_commons, TABLE1);
    let mut meta = String::new();
    gen_p4_metadata(&dag, &mut meta);
    assert_eq!(meta, "header_type metadata_t { \n    fields {\n        t : 8;\n    }\n}\nmetadata metadata_t mdata;\n");
}

#[test]
fn statement_with_undeclared_name_gives_no_text() {
    let dag = dag_of("snippet s() { transient t : bit<8>; t = 1; }");
    let mut st = GenState::new();
    let map = DeclMap::new();
    match &dag.dag_vector[1].node_type {
        DagNodeType::Stmt(s) => {
            let r = handle_statement(s, &dag.dag_vector[1].node_type, &None, &map, &NameMap::new(), &NameMap::new(), &mut st);
            assert_eq!(r, (String::new(), String::new(), String::new(), String::new()));
        },
        _ => panic!("expected a statement"),
    }
}

#[test]
fn parser_selects_program_packet() {
    let tokens = get_tokens("packet pac : udp (srcPort : 1234) { q : bit<3>; } snippet s() { }").unwrap();
    let prog = parse_prog(&tokens).unwrap();
    let dag = dag_of("snippet s() { }");
    let mut text = String::new();
    gen_p4_parser(&dag, &prog.packets, &mut text);
    assert!(text.starts_with("\nparser start {\n    return parse_ethernet;\n}\n"));
    assert!(text.contains("        ETHERTYPE_IPV4 : parse_ipv4;\n        default: ingress;\n    }\n}\n"));
    assert!(text.contains("IP_PROTOCOLS_UDP : parse_udp;\n        default: ingress;\n    }\n}\n"));
    assert!(text.contains("    return select(latest.srcPort) {\n        1234 : parse_pac;\n        default: ingress;\n    }\n}\n\n"));
    assert!(text.ends_with("parser parse_pac {\n    extract(pac);\n    return ingress;\n}\n\n"));
    let whole = gen_p4_program(&prog.packets, &dag);
    assert!(whole.contains("header_type pac_t {\n    fields {\n        q : 3;\n    }\n}\nheader pac_t pac;\n"));
    assert!(whole.ends_with("control ingress {\n\n    if(valid(ipv4) and ipv4.ttl > 0) {\n        apply(ipv4_lpm);\n    }\n}\ncontrol egress {\n}\n"));
}

#[test]
fn vardecl_identifier_is_kept() {
    let id = Identifier { id_name: "x".to_string() };
    assert_eq!(id.get_str(), "x");
}

#[test]
fn value_first_statement_reads_its_variable_operand() {
    let mut dag = dag_of("snippet s() { transient x : bit<32>; transient y : bit<32>; x = 5 - y; }");
    let mut st = GenState::new();
    let empty = Packets { packet_vector: vec![] };
    fill_p4code(&NameMap::new(), &NameMap::new(), &mut dag, &empty, &empty, &mut st);
    let x = VarDecl { id: "x".to_string(), var_info: VarInfo::BitArray(32, 1), type_qualifier: TypeQualifier::Transient };
    let y = VarDecl { id: "y".to_string(), var_info: VarInfo::BitArray(32, 1), type_qualifier: TypeQualifier::Transient };
    let mut st2 = GenState::new();
    let (c, a, t, _) = handle_binop_refval_assignment(&x, 0, &y, 0, BinOpType::Minus, 5, &DeclMap::new(), false, &mut st2);
    let n = &dag.dag_vector[2].p4_code;
    assert_eq!((&n.p4_control, &n.p4_actions, &n.p4_commons), (&c, &a, &t));
    assert!(n.p4_actions.contains("subtract(mdata.x,5,\nmdata.y);"));
}
