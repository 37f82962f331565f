use vstd::prelude::*;
use crate::grammar::{VariableDecl, VarInfo, TypeQualifier, SpecVariableDecl, SpecVarInfo};
use crate::trans_snippet::{Dag, DagNode, DagNodeType, SpecDag, SpecDagNode, SpecDagNodeType, P4Header, SpecP4Header, SpecP4Code, P4Code, NameMap};
use crate::bmv2_gen::{
    empty_header, meta_field_text, meta_init_text, register_text, transient_ok, tab,
    meta_field_line, meta_init_line, register_line,
};
use crate::bmv2_program::{concat_parts, meta_part, register_part, control_part, define_part, NodePart, push_parts};

verus! {

// ---------------------------------------------------------------------------------------------
// Declarations on a Tofino switch
// ---------------------------------------------------------------------------------------------

/// A transient variable becomes a metadata field; transient arrays have no P4 text.
pub open spec fn tofino_transient_header(d: SpecVariableDecl) -> SpecP4Header {
    match d.var_type.var_info {
        SpecVarInfo::BitArray(w, _) => SpecP4Header { meta: meta_field_text(d.identifier, w), meta_init: meta_init_text(d), ..empty_header() },
        SpecVarInfo::Packet(_) => empty_header(),
    }
}

/// A persistent variable becomes a register.
pub open spec fn tofino_persistent_header(d: SpecVariableDecl) -> SpecP4Header {
    match d.var_type.var_info {
        SpecVarInfo::BitArray(w, n) => SpecP4Header {
            register: register_text(d.identifier, w, n),
            meta_init: meta_init_text(d),
            ..empty_header()
        },
        SpecVarInfo::Packet(_) => empty_header(),
    }
}

/// The header part of a transient declaration.
pub fn handle_transient_decl(my_decl: &VariableDecl) -> (h: P4Header)
    requires
        transient_ok(my_decl@),
    ensures
        h@ == tofino_transient_header(my_decl@),
{
    let mut h = P4Header::empty();
    match &my_decl.var_type.var_info {
        VarInfo::BitArray(w, _) => {
            h.meta = meta_field_line(&my_decl.identifier.id_name, *w);
            h.meta_init = meta_init_line(my_decl);
        },
        VarInfo::Packet(_) => {},
    }
    h
}

/// The header part of a persistent declaration.
pub fn handle_persistent_decl(my_decl: &VariableDecl) -> (h: P4Header)
    ensures
        h@ == tofino_persistent_header(my_decl@),
{
    let mut h = P4Header::empty();
    match &my_decl.var_type.var_info {
        VarInfo::BitArray(w, n) => {
            h.register = register_line(&my_decl.identifier.id_name, *w, *n);
            h.meta_init = meta_init_line(my_decl);
        },
        VarInfo::Packet(_) => {},
    }
    h
}

/// The header part of a node: declarations of transient and persistent variables have one.
pub open spec fn tofino_header_spec(nt: SpecDagNodeType) -> SpecP4Header {
    match nt {
        SpecDagNodeType::Decl(d) => match d.var_type.type_qualifier {
            TypeQualifier::Transient => tofino_transient_header(d),
            TypeQualifier::Persistent => tofino_persistent_header(d),
            _ => empty_header(),
        },
        _ => empty_header(),
    }
}

/// A node has P4 text: it is not the declaration of a transient array.
pub open spec fn tofino_header_ok(nt: SpecDagNodeType) -> bool {
    match nt {
        SpecDagNodeType::Decl(d) => d.var_type.type_qualifier == TypeQualifier::Transient ==> transient_ok(d),
        _ => true,
    }
}

/// The header part of a node.
pub fn get_p4_header_trans(node_type: &DagNodeType) -> (h: P4Header)
    requires
        tofino_header_ok(node_type@),
    ensures
        h@ == tofino_header_spec(node_type@),
{
    match node_type {
        DagNodeType::Decl(d) => match d.var_type.type_qualifier {
            TypeQualifier::Transient => handle_transient_decl(d),
            TypeQualifier::Persistent => handle_persistent_decl(d),
            _ => P4Header::empty(),
        },
        _ => P4Header::empty(),
    }
}

/// The control text of a node: statements have no P4 text for this target yet, so no node
/// has any.
pub fn get_p4_body_trans(node_type: &DagNodeType) -> (body: Vec<String>)
    ensures
        body@.len() == 0,
{
    Vec::new()
}

/// Whether every node of the graph has a header text (`tofino_header_ok`).
pub fn headers_generable(my_dag: &Dag) -> (b: bool)
    ensures
        b == (forall|i: int| 0 <= i < my_dag@.dag_vector.len() ==> tofino_header_ok(#[trigger] my_dag@.dag_vector[i].node_type)),
{
    let nodes = &my_dag.dag_vector;
    let ghost nv = my_dag@.dag_vector;
    let mut i: usize = 0;
    while i < nodes.len()
        invariant
            i <= nodes@.len(),
            nv == crate::grammar::vec_view(nodes@),
            nv == my_dag@.dag_vector,
            forall|j: int| 0 <= j < i ==> tofino_header_ok(#[trigger] nv[j].node_type),
        decreases nodes@.len() - i,
    {
        assert(nv[i as int] == nodes@[i as int]@);
        let ok = match &nodes[i].node_type {
            DagNodeType::Decl(d) => match d.var_type.type_qualifier {
                TypeQualifier::Transient => match &d.var_type.var_info {
                    VarInfo::BitArray(_, n) => *n == 1,
                    VarInfo::Packet(_) => true,
                },
                _ => true,
            },
            _ => true,
        };
        if !ok {
            assert(!tofino_header_ok(nv[i as int].node_type));
            return false;
        }
        i = i + 1;
    }
    true
}

/// The node with its header replaced.
pub open spec fn with_header(n: SpecDagNode, h: SpecP4Header) -> SpecDagNode {
    SpecDagNode { p4_code: SpecP4Code { p4_header: h, ..n.p4_code }, ..n }
}

/// Fills in the header part of the text of every node; the rest of each node stays as it is.
pub fn fill_p4code(import_map: &NameMap, packet_map: &NameMap, my_dag: &mut Dag)
    requires
        forall|i: int| 0 <= i < old(my_dag)@.dag_vector.len() ==> tofino_header_ok(#[trigger] old(my_dag)@.dag_vector[i].node_type),
    ensures
        final(my_dag)@.snippet_id == old(my_dag)@.snippet_id,
        final(my_dag)@.device_type == old(my_dag)@.device_type,
        final(my_dag)@.device_vector == old(my_dag)@.device_vector,
        final(my_dag)@.dag_vector.len() == old(my_dag)@.dag_vector.len(),
        forall|i: int| 0 <= i < old(my_dag)@.dag_vector.len() ==> #[trigger] final(my_dag)@.dag_vector[i] == with_header(
            old(my_dag)@.dag_vector[i], tofino_header_spec(old(my_dag)@.dag_vector[i].node_type)),
{
    let ghost old_nodes = my_dag@.dag_vector;
    let mut nodes: Vec<DagNode> = Vec::new();
    std::mem::swap(&mut nodes, &mut my_dag.dag_vector);
    assert(crate::grammar::vec_view(nodes@) == old_nodes);
    let ghost n = nodes@.len();
    assert(n <= usize::MAX) by {
        assert(nodes.len() == n);
    }
    let mut k: usize = 0;
    while nodes.len() > 0
        invariant
            k + nodes@.len() == n,
            n == old_nodes.len(),
            n <= usize::MAX,
            forall|i: int| 0 <= i < nodes@.len() ==> #[trigger] nodes@[i]@ == old_nodes[k + i],
            forall|i: int| 0 <= i < old_nodes.len() ==> tofino_header_ok(#[trigger] old_nodes[i].node_type),
            my_dag.dag_vector@.len() == k,
            forall|i: int| 0 <= i < k ==> #[trigger] my_dag.dag_vector@[i]@ == with_header(old_nodes[i],
                tofino_header_spec(old_nodes[i].node_type)),
            my_dag@.snippet_id == old(my_dag)@.snippet_id,
            my_dag@.device_type == old(my_dag)@.device_type,
            my_dag@.device_vector == old(my_dag)@.device_vector,
        decreases nodes@.len(),
    {
        let ghost before = nodes@;
        let node = nodes.remove(0);
        assert(node@ == old_nodes[k as int]);
        assert(tofino_header_ok(old_nodes[k as int].node_type));
        let header = get_p4_header_trans(&node.node_type);
        let _body = get_p4_body_trans(&node.node_type);
        let DagNode { node_type, p4_code, next_nodes, prev_nodes, pre_condition } = node;
        let code = P4Code { p4_header: header, ..p4_code };
        my_dag.dag_vector.push(DagNode { node_type, p4_code: code, next_nodes, prev_nodes, pre_condition });
        proof {
            assert forall|i: int| 0 <= i < nodes@.len() implies #[trigger] nodes@[i]@ == old_nodes[k + 1 + i] by {
                assert(nodes@[i] == before[i + 1]);
            }
        }
        k = k + 1;
    }
}

// ---------------------------------------------------------------------------------------------
// The program text
// ---------------------------------------------------------------------------------------------

pub open spec fn includes_text() -> Seq<char> {
    "#include <tofino/intrinsic_metadata.p4>\n#include <tofino/constants.p4>\n#include <tofino/primitives.p4>\n#include \"tofino/stateful_alu_blackbox.p4\"\n#include \"tofino/lpf_blackbox.p4\"\n#include \"tofino/wred_blackbox.p4\"\n"@
}

/// The standard includes of a Tofino program.
pub fn gen_p4_includes(contents: &mut String)
    ensures final(contents)@ == old(contents)@ + includes_text(),
{
    contents.append("#include <tofino/intrinsic_metadata.p4>\n#include <tofino/constants.p4>\n#include <tofino/primitives.p4>\n#include \"tofino/stateful_alu_blackbox.p4\"\n#include \"tofino/lpf_blackbox.p4\"\n#include \"tofino/wred_blackbox.p4\"\n");
}

/// The defines of the nodes, in order.
pub fn gen_p4_globals(my_dag: &Dag, contents: &mut String)
    ensures final(contents)@ == old(contents)@ + concat_parts(my_dag@.dag_vector, define_part()),
{
    push_parts(contents, my_dag, NodePart::Define);
}

/// The metadata header with the metadata fields of the nodes; nothing where no node has one.
pub open spec fn tofino_metadata_text(dag: SpecDag) -> Seq<char> {
    let lines = concat_parts(dag.dag_vector, meta_part());
    if lines.len() > 0 {
        "header_type metadata_t { \n"@ + tab() + "fields {\n"@ + lines + tab() + "}\n}\n"@
    } else {
        Seq::empty()
    }
}

pub fn gen_p4_metadata(my_dag: &Dag, contents: &mut String)
    ensures final(contents)@ == old(contents)@ + tofino_metadata_text(my_dag@),
{
    let mut lines = String::new();
    push_parts(&mut lines, my_dag, NodePart::Meta);
    assert(lines@ =~= concat_parts(my_dag@.dag_vector, meta_part()));
    if !lines.as_str().is_empty() {
        contents.append("header_type metadata_t { \n");
        contents.append("    ");
        contents.append("fields {\n");
        contents.append(lines.as_str());
        contents.append("    ");
        contents.append("}\n}\n");
    }
}

/// The registers of the nodes, in order.
pub fn gen_p4_registers(my_dag: &Dag, contents: &mut String)
    ensures final(contents)@ == old(contents)@ + concat_parts(my_dag@.dag_vector, register_part()),
{
    push_parts(contents, my_dag, NodePart::Register);
}

/// The ingress and the egress control, each with the control text of every node.
pub open spec fn tofino_body_text(dag: SpecDag) -> Seq<char> {
    "control ingress {\n"@ + concat_parts(dag.dag_vector, control_part()) + "}\n"@
        + "control egress {\n"@ + concat_parts(dag.dag_vector, control_part()) + "}\n"@
}

pub fn gen_p4_body(my_dag: &Dag, contents: &mut String)
    ensures final(contents)@ == old(contents)@ + tofino_body_text(my_dag@),
{
    contents.append("control ingress {\n");
    push_parts(contents, my_dag, NodePart::Control);
    contents.append("}\n");
    contents.append("control egress {\n");
    push_parts(contents, my_dag, NodePart::Control);
    contents.append("}\n");
}

/// The whole Tofino program of a graph: includes, defines, metadata, registers and controls.
pub open spec fn tofino_program_text(dag: SpecDag) -> Seq<char> {
    includes_text() + concat_parts(dag.dag_vector, define_part()) + tofino_metadata_text(dag)
        + concat_parts(dag.dag_vector, register_part()) + tofino_body_text(dag)
}

/// The P4 program of a graph, as the file for the snippet holds it.
pub fn gen_p4_program(snippet_dag: &Dag) -> (s: String)
    ensures s@ == tofino_program_text(snippet_dag@),
{
    let mut contents = String::new();
    gen_p4_includes(&mut contents);
    gen_p4_globals(snippet_dag, &mut contents);
    gen_p4_metadata(snippet_dag, &mut contents);
    gen_p4_registers(snippet_dag, &mut contents);
    gen_p4_body(snippet_dag, &mut contents);
    proof {
        reveal_strlit("");
    }
    assert(contents@ =~= tofino_program_text(snippet_dag@));
    contents
}

} // verus!
