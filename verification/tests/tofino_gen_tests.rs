use sluice::grammar::Packets;
use sluice::lexer::get_tokens;
use sluice::parser::parse_prog;
use sluice::snippet_dag::create_dag_nodes;
use sluice::tofino_gen::{
    fill_p4code, gen_p4_program, get_p4_body_trans, get_p4_header_trans, handle_persistent_decl, handle_transient_decl,
};
use sluice::trans_snippet::{DagNodeType, NameMap};

const INCLUDES: &str = "#include <tofino/intrinsic_metadata.p4>\n#include <tofino/constants.p4>\n#include <tofino/primitives.p4>\n#include \"tofino/stateful_alu_blackbox.p4\"\n#include \"tofino/lpf_blackbox.p4\"\n#include \"tofino/wred_blackbox.p4\"\n";

#[test]
fn tofino_declaration_headers() {
    let tokens = get_tokens("snippet s() { transient x : bit<8> = 5; persistent r : bit<32>[4] = {1, 2, 3, 4, }; }").unwrap();
    let prog = parse_prog(&tokens).unwrap();
    let decls = &prog.snippets.snippet_vector[0].variable_decls.decl_vector;
    let h = handle_transient_decl(&decls[0]);
    assert_eq!(h.meta, "x : 8;\n");
    assert_eq!(h.meta_init, "set_metadata(mdata.x,5);\n");
    assert_eq!(h.register, "");
    let h = handle_persistent_decl(&decls[1]);
    assert_eq!(h.register, "register r {\n     width : 32; \n     instance_count : 4;\n}\n");
    assert_eq!(h.meta, "");
    assert_eq!(h.meta_init, "set_metadata(mdata.r,1);\n");
    assert_eq!(h.define, "");
}

#[test]
fn tofino_statements_have_no_text() {
    let tokens = get_tokens("snippet s() { transient x : bit<8>; input y : bit<8>; x = y + 1; }").unwrap();
    let prog = parse_prog(&tokens).unwrap();
    let sn = &prog.snippets.snippet_vector[0];
    let decl = DagNodeType::Decl(sluice::snippet_dag::copy_variable_decl(&sn.variable_decls.decl_vector[1]));
    let h = get_p4_header_trans(&decl);
    assert_eq!((h.meta.as_str(), h.meta_init.as_str(), h.register.as_str()), ("", "", ""));
    let stmt = DagNodeType::Stmt(sluice::snippet_dag::copy_statement(&sn.ifblocks.ifblock_vector[0].statements.stmt_vector[0]));
    assert!(get_p4_body_trans(&stmt).is_empty());
    assert_eq!(get_p4_header_trans(&stmt).meta, "");
}

#[test]
fn tofino_program_of_a_snippet() {
    let tokens = get_tokens("@ tofino snippet s() { transient t : bit<8>; persistent r : bit<16> = 3; t = 1; }").unwrap();
    let prog = parse_prog(&tokens).unwrap();
    let empty = Packets { packet_vector: vec![] };
    let mut dags = create_dag_nodes(&prog.snippets, &NameMap::new(), &empty, &empty);
    let mut dag = dags.remove(0);
    fill_p4code(&NameMap::new(), &NameMap::new(), &mut dag);
    assert_eq!(dag.dag_vector[1].p4_code.p4_header.meta_init, "set_metadata(mdata.r,3);\n");
    let text = gen_p4_program(&dag);
    let want = format!(
        "{}{}{}{}",
        INCLUDES,
        "header_type metadata_t { \n    fields {\n        t : 8;\n    }\n}\n",
        "register r {\n     width : 16; \n     instance_count : 1;\n}\n",
        "control ingress {\n}\ncontrol egress {\n}\n"
    );
    assert_eq!(text, want);
}

#[test]
fn tofino_program_without_metadata() {
    let tokens = get_tokens("@ tofino snippet s() { persistent r : bit<16> = 0; }").unwrap();
    let prog = parse_prog(&tokens).unwrap();
    let empty = Packets { packet_vector: vec![] };
    let mut dag = create_dag_nodes(&prog.snippets, &NameMap::new(), &empty, &empty).remove(0);
    fill_p4code(&NameMap::new(), &NameMap::new(), &mut dag);
    let text = gen_p4_program(&dag);
    assert_eq!(text, format!("{}register r {{\n     width : 16; \n     instance_count : 1;\n}}\ncontrol ingress {{\n}}\ncontrol egress {{\n}}\n", INCLUDES));
}
