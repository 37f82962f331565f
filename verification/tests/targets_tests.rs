use sluice::bmv2_commands::commands_checkable;
use sluice::bmv2_gen::{fill_p4code, fill_p4code_ok, imports_known, statement_generable, GenState};
use sluice::bmv2_program::parser_supported;
use sluice::connections::raw_connectable;
use sluice::grammar::{Identifier, Packets};
use sluice::lexer::get_tokens;
use sluice::parser::parse_prog;
use sluice::snippet_dag::{create_dag_nodes, snippet_removable, TypeMap};
use sluice::targets::{code_generable, device_target, gen_code, gen_topology_json, text_contains, topology_writable, Target};
use sluice::tofino_gen::headers_generable;
use sluice::trans_snippet::{Dag, DagNodeType, DeclMap, NameMap};

fn prog(program: &str) -> sluice::grammar::Prog {
    parse_prog(&get_tokens(program).unwrap()).unwrap()
}

fn dag(name: &str, devices: &[&str]) -> Dag {
    Dag {
        snippet_id: name.to_string(),
        device_type: "bmv2".to_string(),
        device_vector: devices.iter().map(|d| Identifier { id_name: d.to_string() }).collect(),
        dag_vector: vec![],
    }
}

#[test]
fn targets_by_device_name() {
    assert_eq!(device_target("bmv2"), Target::Bmv2);
    assert_eq!(device_target("my_bmv2_switch"), Target::Bmv2);
    assert_eq!(device_target("tofino"), Target::Tofino);
    assert_eq!(device_target("fpga"), Target::Unknown);
    assert!(text_contains("abc", ""));
    assert!(!text_contains("ab", "abc"));
    assert!(text_contains("xxabc", "abc"));
}

#[test]
fn topology_of_one_and_of_several_snippets() {
    let one = vec![dag("fun", &[])];
    assert!(topology_writable(&one));
    assert_eq!(gen_topology_json(&one), "{\"snippet_loc\" : \"fun\"}");
    let two = vec![dag("a", &["s1", "s2"]), dag("b", &["s3"])];
    assert!(topology_writable(&two));
    assert_eq!(gen_topology_json(&two), "{\"snippet_loc\" : {\"s1\" : \"a\",\"s2\" : \"a\",\"s3\" : \"b\"}}");
    let none = vec![dag("a", &[]), dag("b", &[])];
    assert!(!topology_writable(&none));
    assert!(!topology_writable(&vec![]));
}

#[test]
fn branch_removal_needs_declared_targets() {
    let p = prog("snippet s() { transient a : bit<8>; if (a > 1) { b = a + 1; } }");
    assert!(!snippet_removable(&p.snippets.snippet_vector[0], &NameMap::new(), &TypeMap::new()));
    let p = prog("snippet s() { transient a : bit<8>; if (a > 1) { b = a; } }");
    assert!(snippet_removable(&p.snippets.snippet_vector[0], &NameMap::new(), &TypeMap::new()));
}

#[test]
fn connections_need_declared_targets() {
    let p = prog("snippet s() { transient a : bit<8>; a = 1; b = a; }");
    let empty = Packets { packet_vector: vec![] };
    let dags = create_dag_nodes(&p.snippets, &NameMap::new(), &empty, &empty);
    assert!(!raw_connectable(&dags[0]));
    let p = prog("snippet s() { transient a : bit<8>; transient b : bit<8>; a = 1; b = a; }");
    let dags = create_dag_nodes(&p.snippets, &NameMap::new(), &empty, &empty);
    assert!(raw_connectable(&dags[0]));
}

#[test]
fn generator_checks() {
    let empty = Packets { packet_vector: vec![] };
    let p = prog("snippet s() { transient a : bit<8>[4]; }");
    let dags = create_dag_nodes(&p.snippets, &NameMap::new(), &empty, &empty);
    assert!(!fill_p4code_ok(&NameMap::new(), &NameMap::new(), &dags[0], &empty, &empty));
    assert!(!headers_generable(&dags[0]));
    let p = prog("snippet s() { transient z : bit<1>; transient m : bit<8>; m = z ? 1 : 2; }");
    let mut d = create_dag_nodes(&p.snippets, &NameMap::new(), &empty, &empty).remove(0);
    assert!(fill_p4code_ok(&NameMap::new(), &NameMap::new(), &d, &empty, &empty));
    assert!(headers_generable(&d));
    let mut st = GenState::new();
    fill_p4code(&NameMap::new(), &NameMap::new(), &mut d, &empty, &empty, &mut st);
    assert!(commands_checkable(&d));
    let p = prog("snippet s() { transient z : bit<8>; transient m : bit<8>; m = z ? 1 : 2; }");
    let mut d = create_dag_nodes(&p.snippets, &NameMap::new(), &empty, &empty).remove(0);
    let mut st = GenState::new();
    fill_p4code(&NameMap::new(), &NameMap::new(), &mut d, &empty, &empty, &mut st);
    assert!(!commands_checkable(&d));
    match &d.dag_vector[2].node_type {
        DagNodeType::Stmt(s) => {
            assert!(statement_generable(s, &DeclMap::new(), &NameMap::new()));
        },
        _ => panic!("expected a statement"),
    }
    assert!(parser_supported(&empty));
    let with_packet = prog("packet p : udp (srcPort : 1234) { a : bit<8>; } snippet s() { }");
    assert!(parser_supported(&with_packet.packets));
    let odd_packet = prog("packet p : tcp (dstPort : 80) { a : bit<8>; } snippet s() { }");
    assert!(!parser_supported(&odd_packet.packets));
    let mut imports = NameMap::new();
    imports.insert("dev.port".to_string(), "ingress_port".to_string());
    assert!(imports_known(&imports));
    imports.insert("dev.other".to_string(), "flux".to_string());
    assert!(!imports_known(&imports));
}

#[test]
fn generated_files_per_device() {
    let p = prog("@ bmv2 snippet a() { transient x : bit<8>; x = 1; } @ tofino snippet b() { persistent r : bit<8> = 0; } @ fpga snippet c() { }");
    let empty = Packets { packet_vector: vec![] };
    let mut dags = create_dag_nodes(&p.snippets, &NameMap::new(), &empty, &empty);
    let mut st = GenState::new();
    fill_p4code(&NameMap::new(), &NameMap::new(), &mut dags[0], &empty, &empty, &mut st);
    sluice::tofino_gen::fill_p4code(&NameMap::new(), &NameMap::new(), &mut dags[1]);
    assert!(code_generable(&empty, &dags));
    let files = gen_code(&empty, &dags);
    let paths: Vec<&str> = files.iter().map(|f| f.0.as_str()).collect();
    assert_eq!(paths, vec!["out/a.p4", "bmv2_sim/commands/a.txt", "out/b.p4"]);
    assert_eq!(files[1].1, "table_set_default table1 action1\n");
    assert_eq!(files[2].1, sluice::tofino_gen::gen_p4_program(&dags[1]));
    assert_eq!(files[0].1, sluice::bmv2_program::gen_p4_program(&empty, &dags[0]));
}
