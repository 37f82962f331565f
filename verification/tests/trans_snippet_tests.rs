use sluice::bmv2_commands::{gen_control_plane_commands, numbered_names_in};
use sluice::bmv2_gen::{fill_p4code, GenState};
use sluice::grammar::{BinOpType, Identifier, LValue, Operand, Packets, TypeQualifier, Value, VarInfo};
use sluice::lexer::get_tokens;
use sluice::parser::parse_prog;
use sluice::snippet_dag::create_dag_nodes;
use sluice::trans_snippet::{
    copy_var_decl, get_array_ind_val, get_dag_node, get_operand_val, get_read_vars, get_write_var, handle_array_op,
    handle_binop, handle_operand, DeclMap, IndexMap, NameMap, VarDecl,
};

fn scalar(name: &str) -> LValue {
    LValue::Scalar(Identifier { id_name: name.to_string() })
}

#[test]
fn binop_spellings() {
    assert_eq!(handle_binop(BinOpType::Plus), " + ");
    assert_eq!(handle_binop(BinOpType::BooleanAnd), " & ");
    assert_eq!(handle_binop(BinOpType::BooleanOr), " | ");
    assert_eq!(handle_binop(BinOpType::GTEQOp), " >= ");
    assert_eq!(handle_binop(BinOpType::NotEqual), " != ");
    assert_eq!(handle_binop(BinOpType::Modulo), " % ");
}

#[test]
fn operands_as_debug_text() {
    assert_eq!(handle_operand(&Operand::LValue(scalar("x"))), "\"x\"");
    assert_eq!(handle_operand(&Operand::Value(Value { value: 42 })), "42");
    let field = Operand::LValue(LValue::Field(Identifier { id_name: "p".to_string() }, Identifier { id_name: "f".to_string() }));
    assert_eq!(handle_operand(&field), "\"p\".\"f\"");
    assert_eq!(handle_array_op(&Operand::LValue(scalar("i"))), "\"i\"");
    assert_eq!(handle_array_op(&Operand::Value(Value { value: 3 })), "3");
    let arr = Operand::LValue(LValue::Array(Identifier { id_name: "a".to_string() }, Box::new(Operand::LValue(scalar("i")))));
    assert_eq!(handle_operand(&arr), "\"a\"[\"\\\"i\\\"\"]");
}

#[test]
fn writers_and_readers_of_a_statement() {
    let mut writers = IndexMap::new();
    writers.insert("x".to_string(), 1);
    writers.insert("y".to_string(), 2);
    writers.insert("a".to_string(), 3);
    writers.insert("p.f".to_string(), 4);
    writers.insert("x".to_string(), 5);
    assert_eq!(get_write_var(&writers, &scalar("x")), 5);
    let field = LValue::Field(Identifier { id_name: "p".to_string() }, Identifier { id_name: "f".to_string() });
    assert_eq!(get_write_var(&writers, &field), 4);
    assert_eq!(get_array_ind_val(&writers, &Operand::Value(Value { value: 7 })), usize::MAX);
    assert_eq!(get_array_ind_val(&writers, &Operand::LValue(scalar("y"))), 2);
    let arr = Operand::LValue(LValue::Array(Identifier { id_name: "a".to_string() }, Box::new(Operand::LValue(scalar("y")))));
    assert_eq!(get_operand_val(&writers, &arr), vec![3, 2]);
    let unknown_field = Operand::LValue(LValue::Field(Identifier { id_name: "q".to_string() }, Identifier { id_name: "g".to_string() }));
    assert_eq!(get_operand_val(&writers, &unknown_field), Vec::<usize>::new());
    let tokens = get_tokens("snippet s() { transient a : bit<8>[4]; a[y] = x + p.f; }").unwrap();
    let prog = parse_prog(&tokens).unwrap();
    let st = &prog.snippets.snippet_vector[0].ifblocks.ifblock_vector[0].statements.stmt_vector[0];
    assert_eq!(get_read_vars(&writers, st), vec![2, 5, 4]);
}

#[test]
fn maps_by_name() {
    let mut decls = DeclMap::new();
    let d = VarDecl { id: "x".to_string(), var_info: VarInfo::BitArray(8, 1), type_qualifier: TypeQualifier::Transient };
    decls.insert("x".to_string(), copy_var_decl(&d));
    assert_eq!(decls.get(&"x".to_string()), Some(&d));
    assert_eq!(decls.get(&"y".to_string()), None);
    let mut names = NameMap::new();
    names.insert("a".to_string(), "b".to_string());
    names.insert("a".to_string(), "c".to_string());
    assert_eq!(names.get(&"a".to_string()), Some(&"c".to_string()));
}

#[test]
fn nodes_by_position() {
    let tokens = get_tokens("snippet s() { transient x : bit<8>; x = 1; }").unwrap();
    let prog = parse_prog(&tokens).unwrap();
    let empty = Packets { packet_vector: vec![] };
    let dags = create_dag_nodes(&prog.snippets, &NameMap::new(), &empty, &empty);
    assert!(get_dag_node(&dags[0], &1).is_some());
    assert!(get_dag_node(&dags[0], &2).is_none());
}

#[test]
fn numbered_table_and_action_names() {
    let names = numbered_names_in("table1 eqtable2 table x table33", "table");
    assert_eq!(names, vec!["table1", "table2", "table33"]);
    let names = numbered_names_in("actions {\n action4;\n action5;\n}", "action");
    assert_eq!(names, vec!["action4", "action5"]);
    assert!(numbered_names_in("", "table").is_empty());
}

#[test]
fn control_plane_commands_of_a_snippet() {
    let tokens = get_tokens("snippet s() { transient z : bit<1>; transient m : bit<32>; m = 5; m = z ? 5 : 10; }").unwrap();
    let prog = parse_prog(&tokens).unwrap();
    let empty = Packets { packet_vector: vec![] };
    let mut dag = create_dag_nodes(&prog.snippets, &NameMap::new(), &empty, &empty).remove(0);
    let mut st = GenState::new();
    fill_p4code(&NameMap::new(), &NameMap::new(), &mut dag, &empty, &empty, &mut st);
    let commands = gen_control_plane_commands(&dag);
    assert_eq!(commands, "table_set_default table1 action1\ntable_add table2 action2 1 => \ntable_add table2 action3 0 => \n");
}
