use vstd::prelude::*;
use crate::grammar::{Packets, Packet, VarInfo, SpecPacket, SpecPacketField, SpecVarInfo, SpecParserCondition};
use crate::trans_snippet::{Dag, DagNode, SpecDag, SpecDagNode};
use crate::bmv2_gen::{tab, dec, push_dec, string_is};

verus! {

// ---------------------------------------------------------------------------------------------
// The fixed parts of the program
// ---------------------------------------------------------------------------------------------

pub open spec fn defines_text() -> Seq<char> {
    "#define ETHERTYPE_IPV4 0x0800\n#define IP_PROTOCOLS_TCP 6\n#define IP_PROTOCOLS_UDP 17\n#define IP_PROTOCOLS_TCP 6\n"@
}

fn push_defines(s: &mut String)
    ensures final(s)@ == old(s)@ + defines_text(),
{
    s.append("#define ETHERTYPE_IPV4 0x0800\n#define IP_PROTOCOLS_TCP 6\n#define IP_PROTOCOLS_UDP 17\n#define IP_PROTOCOLS_TCP 6\n");
}

pub open spec fn eth_header_text() -> Seq<char> {
    "header_type ethernet_t {\n    fields {\n        dstAddr : 48;\n        srcAddr : 48;\n        etherType : 16;\n    }\n}\n"@
}

fn push_eth_header(s: &mut String)
    ensures final(s)@ == old(s)@ + eth_header_text(),
{
    s.append("header_type ethernet_t {\n    fields {\n        dstAddr : 48;\n        srcAddr : 48;\n        etherType : 16;\n    }\n}\n");
}

pub open spec fn ipv4_header_text() -> Seq<char> {
    "header_type ipv4_t {\n    fields {\n        version : 4;\n        ihl : 4;\n        diffserv : 8;\n        totalLen : 16;\n        identification : 16;\n        flags : 3;\n        fragOffset : 13;\n        ttl : 8;\n        protocol : 8;\n        hdrChecksum : 16;\n        srcAddr : 32;\n        dstAddr: 32;\n    }\n}\n"@
}

fn push_ipv4_header(s: &mut String)
    ensures final(s)@ == old(s)@ + ipv4_header_text(),
{
    s.append("header_type ipv4_t {\n    fields {\n        version : 4;\n        ihl : 4;\n        diffserv : 8;\n        totalLen : 16;\n        identification : 16;\n        flags : 3;\n        fragOffset : 13;\n        ttl : 8;\n        protocol : 8;\n        hdrChecksum : 16;\n        srcAddr : 32;\n        dstAddr: 32;\n    }\n}\n");
}

pub open spec fn tcp_header_text() -> Seq<char> {
    "header_type tcp_t {\n    fields {\n        srcPort : 16;\n        dstPort : 16;\n        seqNo : 32;\n        ackNo : 32;\n        dataOffset : 4;\n        res : 4;\n        flags : 8;\n        window : 16;\n        checksum : 16;\n        urgentPtr : 16;\n    }\n}\n"@
}

fn push_tcp_header(s: &mut String)
    ensures final(s)@ == old(s)@ + tcp_header_text(),
{
    s.append("header_type tcp_t {\n    fields {\n        srcPort : 16;\n        dstPort : 16;\n        seqNo : 32;\n        ackNo : 32;\n        dataOffset : 4;\n        res : 4;\n        flags : 8;\n        window : 16;\n        checksum : 16;\n        urgentPtr : 16;\n    }\n}\n");
}

pub open spec fn udp_header_text() -> Seq<char> {
    "header_type udp_t {\n    fields {\n        srcPort : 16;\n        dstPort : 16;\n        len : 16;\n        checksum : 16;\n    }\n}\n"@
}

fn push_udp_header(s: &mut String)
    ensures final(s)@ == old(s)@ + udp_header_text(),
{
    s.append("header_type udp_t {\n    fields {\n        srcPort : 16;\n        dstPort : 16;\n        len : 16;\n        checksum : 16;\n    }\n}\n");
}

pub open spec fn header_instances_text() -> Seq<char> {
    "header ethernet_t ethernet;\nheader ipv4_t ipv4;\nheader tcp_t tcp;\nheader udp_t udp;\n"@
}

fn push_header_instances(s: &mut String)
    ensures final(s)@ == old(s)@ + header_instances_text(),
{
    s.append("header ethernet_t ethernet;\nheader ipv4_t ipv4;\nheader tcp_t tcp;\nheader udp_t udp;\n");
}

pub open spec fn routing_text() -> Seq<char> {
    "\nfield_list ipv4_checksum_list {\n        ipv4.version;\n        ipv4.ihl;\n        ipv4.diffserv;\n        ipv4.totalLen;\n        ipv4.identification;\n        ipv4.flags;\n        ipv4.fragOffset;\n        ipv4.ttl;\n        ipv4.protocol;\n        ipv4.srcAddr;\n        ipv4.dstAddr;\n}\n\nfield_list_calculation ipv4_checksum {\n    input {\n        ipv4_checksum_list;\n    }\n    algorithm : csum16;\n    output_width : 16;\n}\ncalculated_field ipv4.hdrChecksum  {\n    verify ipv4_checksum;\n    update ipv4_checksum;\n}\n\n\naction _drop() {\n    drop();\n}\n\naction ipv4_forward(dstAddr, port) {\n    modify_field(udp.checksum, 0);\n    modify_field(standard_metadata.egress_spec, port);\n    modify_field(ethernet.srcAddr, ethernet.dstAddr);\n    modify_field(ethernet.dstAddr, dstAddr);\n    subtract_from_field(ipv4.ttl, 1);\n}\n\ntable ipv4_lpm {\n    reads {\n        ipv4.dstAddr : lpm;\n    }\n    actions {\n        ipv4_forward;\n        _drop;\n    }\n    size: 1024;\n}\n\n"@
}

fn push_routing(s: &mut String)
    ensures final(s)@ == old(s)@ + routing_text(),
{
    s.append("\nfield_list ipv4_checksum_list {\n        ipv4.version;\n        ipv4.ihl;\n        ipv4.diffserv;\n        ipv4.totalLen;\n        ipv4.identification;\n        ipv4.flags;\n        ipv4.fragOffset;\n        ipv4.ttl;\n        ipv4.protocol;\n        ipv4.srcAddr;\n        ipv4.dstAddr;\n}\n\nfield_list_calculation ipv4_checksum {\n    input {\n        ipv4_checksum_list;\n    }\n    algorithm : csum16;\n    output_width : 16;\n}\ncalculated_field ipv4.hdrChecksum  {\n    verify ipv4_checksum;\n    update ipv4_checksum;\n}\n\n\naction _drop() {\n    drop();\n}\n\naction ipv4_forward(dstAddr, port) {\n    modify_field(udp.checksum, 0);\n    modify_field(standard_metadata.egress_spec, port);\n    modify_field(ethernet.srcAddr, ethernet.dstAddr);\n    modify_field(ethernet.dstAddr, dstAddr);\n    subtract_from_field(ipv4.ttl, 1);\n}\n\ntable ipv4_lpm {\n    reads {\n        ipv4.dstAddr : lpm;\n    }\n    actions {\n        ipv4_forward;\n        _drop;\n    }\n    size: 1024;\n}\n\n");
}

pub open spec fn parser_start_text() -> Seq<char> {
    "\nparser start {\n    return parse_ethernet;\n}\n\nparser parse_ethernet {\n    extract(ethernet);\n    return select(latest.etherType) {\n        ETHERTYPE_IPV4 : parse_ipv4;\n"@
}

fn push_parser_start(s: &mut String)
    ensures final(s)@ == old(s)@ + parser_start_text(),
{
    s.append("\nparser start {\n    return parse_ethernet;\n}\n\nparser parse_ethernet {\n    extract(ethernet);\n    return select(latest.etherType) {\n        ETHERTYPE_IPV4 : parse_ipv4;\n");
}

pub open spec fn parser_ipv4_text() -> Seq<char> {
    "}\n}\n\nparser parse_ipv4 {\n    extract(ipv4);\n    return select(latest.protocol) {\n        IP_PROTOCOLS_TCP : parse_tcp;\n        IP_PROTOCOLS_UDP : parse_udp;"@
}

fn push_parser_ipv4(s: &mut String)
    ensures final(s)@ == old(s)@ + parser_ipv4_text(),
{
    s.append("}\n}\n\nparser parse_ipv4 {\n    extract(ipv4);\n    return select(latest.protocol) {\n        IP_PROTOCOLS_TCP : parse_tcp;\n        IP_PROTOCOLS_UDP : parse_udp;");
}

pub open spec fn parser_tcp_text() -> Seq<char> {
    "}\n}\n\nparser parse_tcp {\n    extract(tcp);\n    return ingress;\n}\n"@
}

fn push_parser_tcp(s: &mut String)
    ensures final(s)@ == old(s)@ + parser_tcp_text(),
{
    s.append("}\n}\n\nparser parse_tcp {\n    extract(tcp);\n    return ingress;\n}\n");
}

pub open spec fn parser_udp_plain_text() -> Seq<char> {
    "\nparser parse_udp {\n    extract(udp);\n    return ingress;\n}\n"@
}

fn push_parser_udp_plain(s: &mut String)
    ensures final(s)@ == old(s)@ + parser_udp_plain_text(),
{
    s.append("\nparser parse_udp {\n    extract(udp);\n    return ingress;\n}\n");
}

pub open spec fn parser_udp_select_text() -> Seq<char> {
    "\nparser parse_udp {\n    extract(udp);\n    return select(latest.srcPort) {\n"@
}

fn push_parser_udp_select(s: &mut String)
    ensures final(s)@ == old(s)@ + parser_udp_select_text(),
{
    s.append("\nparser parse_udp {\n    extract(udp);\n    return select(latest.srcPort) {\n");
}

pub open spec fn ipv4_lpm_apply_text() -> Seq<char> {
    "\n    if(valid(ipv4) and ipv4.ttl > 0) {\n        apply(ipv4_lpm);\n    }\n"@
}

fn push_ipv4_lpm_apply(s: &mut String)
    ensures final(s)@ == old(s)@ + ipv4_lpm_apply_text(),
{
    s.append("\n    if(valid(ipv4) and ipv4.ttl > 0) {\n        apply(ipv4_lpm);\n    }\n");
}

// ---------------------------------------------------------------------------------------------
// Text gathered from the nodes of a graph
// ---------------------------------------------------------------------------------------------

/// The text that `part` gives of each node, in the order of the nodes.
pub open spec fn concat_parts(nodes: Seq<SpecDagNode>, part: spec_fn(SpecDagNode) -> Seq<char>) -> Seq<char>
    decreases nodes.len(),
{
    if nodes.len() == 0 {
        Seq::empty()
    } else {
        concat_parts(nodes.drop_last(), part) + part(nodes.last())
    }
}

pub open spec fn define_part() -> spec_fn(SpecDagNode) -> Seq<char> {
    |n: SpecDagNode| n.p4_code.p4_header.define
}

pub open spec fn register_part() -> spec_fn(SpecDagNode) -> Seq<char> {
    |n: SpecDagNode| n.p4_code.p4_header.register
}

pub open spec fn actions_part() -> spec_fn(SpecDagNode) -> Seq<char> {
    |n: SpecDagNode| n.p4_code.p4_actions
}

pub open spec fn commons_part() -> spec_fn(SpecDagNode) -> Seq<char> {
    |n: SpecDagNode| n.p4_code.p4_commons
}

pub open spec fn control_part() -> spec_fn(SpecDagNode) -> Seq<char> {
    |n: SpecDagNode| n.p4_code.p4_control
}

/// The metadata field of a node, indented, where the node declares one.
pub open spec fn meta_part() -> spec_fn(SpecDagNode) -> Seq<char> {
    |n: SpecDagNode| if n.p4_code.p4_header.meta.len() != 0 { tab() + tab() + n.p4_code.p4_header.meta } else { Seq::empty() }
}

/// Which part of a node's text to gather.
#[derive(Debug, PartialEq, Eq, Structural, Clone, Copy)]
pub enum NodePart {
    Define,
    Register,
    Actions,
    Commons,
    Control,
    Meta,
}

pub open spec fn node_part(which: NodePart) -> spec_fn(SpecDagNode) -> Seq<char> {
    match which {
        NodePart::Define => define_part(),
        NodePart::Register => register_part(),
        NodePart::Actions => actions_part(),
        NodePart::Commons => commons_part(),
        NodePart::Control => control_part(),
        NodePart::Meta => meta_part(),
    }
}

fn push_node_part(s: &mut String, n: &DagNode, which: NodePart)
    ensures final(s)@ == old(s)@ + node_part(which)(n@),
{
    match which {
        NodePart::Define => s.append(n.p4_code.p4_header.define.as_str()),
        NodePart::Register => s.append(n.p4_code.p4_header.register.as_str()),
        NodePart::Actions => s.append(n.p4_code.p4_actions.as_str()),
        NodePart::Commons => s.append(n.p4_code.p4_commons.as_str()),
        NodePart::Control => s.append(n.p4_code.p4_control.as_str()),
        NodePart::Meta => {
            if !n.p4_code.p4_header.meta.as_str().is_empty() {
                s.append("    ");
                s.append("    ");
                s.append(n.p4_code.p4_header.meta.as_str());
            } else {
                assert(old(s)@ + Seq::<char>::empty() =~= old(s)@);
            }
        },
    }
}

pub(crate) fn push_parts(s: &mut String, dag: &Dag, which: NodePart)
    ensures final(s)@ == old(s)@ + concat_parts(dag@.dag_vector, node_part(which)),
{
    let nodes = &dag.dag_vector;
    let ghost nv = dag@.dag_vector;
    let ghost s0 = s@;
    let mut i: usize = 0;
    assert(s0 + concat_parts(nv.subrange(0, 0), node_part(which)) =~= s0);
    while i < nodes.len()
        invariant
            i <= nodes@.len(),
            nodes == &dag.dag_vector,
            nv == dag@.dag_vector,
            s@ == s0 + concat_parts(nv.subrange(0, i as int), node_part(which)),
        decreases nodes@.len() - i,
    {
        push_node_part(s, &nodes[i], which);
        proof {
            assert(nv.subrange(0, i + 1).drop_last() =~= nv.subrange(0, i as int));
            assert(nv[i as int] == nodes@[i as int]@);
        }
        i = i + 1;
    }
    assert(nv.subrange(0, i as int) =~= nv);
}

/// The defines of the nodes.
pub open spec fn globals_text(dag: SpecDag) -> Seq<char> {
    concat_parts(dag.dag_vector, define_part())
}

pub fn gen_p4_globals(my_dag: &Dag, contents: &mut String)
    ensures final(contents)@ == old(contents)@ + globals_text(my_dag@),
{
    push_parts(contents, my_dag, NodePart::Define);
}

// ---------------------------------------------------------------------------------------------
// Headers
// ---------------------------------------------------------------------------------------------

/// The line of a packet field; fields that are packets themselves have none.
pub open spec fn field_line(f: SpecPacketField) -> Seq<char> {
    match f.var_type.var_info {
        SpecVarInfo::BitArray(size, _) => tab() + tab() + f.identifier + " : "@ + dec(size as u64) + ";\n"@,
        SpecVarInfo::Packet(_) => Seq::empty(),
    }
}

pub open spec fn field_lines(fields: Seq<SpecPacketField>) -> Seq<char>
    decreases fields.len(),
{
    if fields.len() == 0 {
        Seq::empty()
    } else {
        field_lines(fields.drop_last()) + field_line(fields.last())
    }
}

/// The header type and the header instance of a packet that has fields.
pub open spec fn packet_header_text(p: SpecPacket) -> Seq<char> {
    if p.packet_fields.len() != 0 {
        "header_type "@ + p.packet_id + "_t {\n"@ + tab() + "fields {\n"@ + field_lines(p.packet_fields) + tab() + "}\n}\n"@
            + "header "@ + p.packet_id + "_t "@ + p.packet_id + ";\n"@
    } else {
        Seq::empty()
    }
}

pub open spec fn packet_headers_text(packets: Seq<SpecPacket>) -> Seq<char>
    decreases packets.len(),
{
    if packets.len() == 0 {
        Seq::empty()
    } else {
        packet_headers_text(packets.drop_last()) + packet_header_text(packets.last())
    }
}

/// The standard headers, the headers of the program's packets, and the header instances.
pub open spec fn headers_text(packets: Seq<SpecPacket>) -> Seq<char> {
    defines_text() + eth_header_text() + ipv4_header_text() + tcp_header_text() + udp_header_text()
        + packet_headers_text(packets) + header_instances_text()
}

fn push_field_lines(s: &mut String, p: &Packet)
    ensures final(s)@ == old(s)@ + field_lines(p@.packet_fields),
{
    let fields = &p.packet_fields.field_vector;
    let ghost fv = p@.packet_fields;
    let ghost s0 = s@;
    let mut i: usize = 0;
    assert(s0 + field_lines(fv.subrange(0, 0)) =~= s0);
    while i < fields.len()
        invariant
            i <= fields@.len(),
            fields == &p.packet_fields.field_vector,
            fv == p@.packet_fields,
            s@ == s0 + field_lines(fv.subrange(0, i as int)),
        decreases fields@.len() - i,
    {
        let f = &fields[i];
        let ghost before = s@;
        match &f.var_type.var_info {
            VarInfo::BitArray(size, _) => {
                s.append("    ");
                s.append("    ");
                s.append(f.identifier.id_name.as_str());
                s.append(" : ");
                push_dec(s, *size as u64);
                s.append(";\n");
            },
            VarInfo::Packet(_) => {},
        }
        proof {
            assert(fv.subrange(0, i + 1).drop_last() =~= fv.subrange(0, i as int));
            assert(fv[i as int] == f@);
            assert(s@ =~= before + field_line(f@));
        }
        i = i + 1;
    }
    assert(fv.subrange(0, i as int) =~= fv);
}

fn push_packet_header(s: &mut String, p: &Packet)
    ensures final(s)@ == old(s)@ + packet_header_text(p@),
{
    if p.packet_fields.field_vector.len() != 0 {
        s.append("header_type ");
        s.append(p.packet_id.id_name.as_str());
        s.append("_t {\n");
        s.append("    ");
        s.append("fields {\n");
        push_field_lines(s, p);
        s.append("    ");
        s.append("}\n}\n");
        s.append("header ");
        s.append(p.packet_id.id_name.as_str());
        s.append("_t ");
        s.append(p.packet_id.id_name.as_str());
        s.append(";\n");
    } else {
        assert(old(s)@ + Seq::<char>::empty() =~= old(s)@);
    }
}

pub fn gen_p4_headers(my_dag: &Dag, my_packets: &Packets, contents: &mut String)
    ensures final(contents)@ == old(contents)@ + headers_text(my_packets@),
{
    let ghost s0 = contents@;
    push_defines(contents);
    push_eth_header(contents);
    push_ipv4_header(contents);
    push_tcp_header(contents);
    push_udp_header(contents);
    let ghost s1 = contents@;
    let pv = &my_packets.packet_vector;
    let ghost ps = my_packets@;
    let mut i: usize = 0;
    assert(s1 + packet_headers_text(ps.subrange(0, 0)) =~= s1);
    while i < pv.len()
        invariant
            i <= pv@.len(),
            pv == &my_packets.packet_vector,
            ps == my_packets@,
            contents@ == s1 + packet_headers_text(ps.subrange(0, i as int)),
        decreases pv@.len() - i,
    {
        push_packet_header(contents, &pv[i]);
        proof {
            assert(ps.subrange(0, i + 1).drop_last() =~= ps.subrange(0, i as int));
            assert(ps[i as int] == pv@[i as int]@);
        }
        i = i + 1;
    }
    assert(ps.subrange(0, i as int) =~= ps);
    push_header_instances(contents);
}

// ---------------------------------------------------------------------------------------------
// The parser
// ---------------------------------------------------------------------------------------------

/// The select case that parses the program's first packet after Ethernet.
pub open spec fn eth_select(packets: Seq<SpecPacket>) -> Option<Seq<char>> {
    if packets.len() > 0 && packets[0].packet_base == "ethernet"@ {
        match packets[0].packet_parser_condition {
            SpecParserCondition::ParserCondition(id, v) =>
                if id == "etherType"@ { Some(tab() + dec(v as u64) + " : parse_"@ + packets[0].packet_id + ";"@) } else { None },
            _ => None,
        }
    } else {
        None
    }
}

pub open spec fn ipv4_select(packets: Seq<SpecPacket>) -> Option<Seq<char>> {
    if packets.len() > 0 && packets[0].packet_base == "ipv4"@ {
        match packets[0].packet_parser_condition {
            SpecParserCondition::ParserCondition(id, v) =>
                if id == "protocol"@ { Some(dec(v as u64) + " : parse_"@ + packets[0].packet_id + ";"@) } else { None },
            _ => None,
        }
    } else {
        None
    }
}

pub open spec fn udp_select(packets: Seq<SpecPacket>) -> Option<Seq<char>> {
    if packets.len() > 0 && packets[0].packet_base == "udp"@ {
        match packets[0].packet_parser_condition {
            SpecParserCondition::ParserCondition(id, v) =>
                if id == "srcPort"@ { Some(dec(v as u64) + " : parse_"@ + packets[0].packet_id + ";"@) } else { None },
            _ => None,
        }
    } else {
        None
    }
}

/// The parser can be generated: the program has no packet, or its first packet is derived
/// from Ethernet by `etherType`, from IPv4 by `protocol` or from UDP by `srcPort`.
pub open spec fn parser_ok(packets: Seq<SpecPacket>) -> bool {
    packets.len() == 0 || eth_select(packets) is Some || ipv4_select(packets) is Some || udp_select(packets) is Some
}

pub open spec fn eth_part(packets: Seq<SpecPacket>) -> Seq<char> {
    match eth_select(packets) {
        Some(e) => "        "@ + e + "\n"@,
        None => tab() + tab() + "default: ingress;\n"@,
    }
}

pub open spec fn ipv4_part(packets: Seq<SpecPacket>) -> Seq<char> {
    match ipv4_select(packets) {
        Some(x) => "        "@ + x + "\n\n"@,
        None => "\n"@ + tab() + tab() + "default: ingress;\n"@,
    }
}

pub open spec fn udp_part(packets: Seq<SpecPacket>) -> Seq<char> {
    match udp_select(packets) {
        Some(u) => parser_udp_select_text() + tab() + tab() + u + "\n"@ + tab() + tab() + "default: ingress;\n"@ + tab() + "}\n}\n\n"@,
        None => parser_udp_plain_text(),
    }
}

pub open spec fn packet_parser_part(packets: Seq<SpecPacket>) -> Seq<char> {
    if packets.len() > 0 {
        "parser parse_"@ + packets[0].packet_id + " {\n    extract("@ + packets[0].packet_id + ");\n    return ingress;\n}\n\n"@
    } else {
        Seq::empty()
    }
}

/// The parser: Ethernet, then IPv4, then TCP or UDP, with the select case of the program's
/// first packet where it has one.
pub open spec fn parser_text(packets: Seq<SpecPacket>) -> Seq<char> {
    parser_start_text() + eth_part(packets) + tab() + parser_ipv4_text() + ipv4_part(packets) + tab() + parser_tcp_text()
        + udp_part(packets) + packet_parser_part(packets)
}

fn select_case(p: &Packet, base: &str, field: &str, indent: bool) -> (r: Option<String>)
    ensures
        match r {
            Some(t) => p@.packet_base == base@ && (match p@.packet_parser_condition {
                SpecParserCondition::ParserCondition(id, v) => id == field@
                    && t@ == (if indent { tab() } else { Seq::empty() }) + dec(v as u64) + " : parse_"@ + p@.packet_id + ";"@,
                _ => false,
            }),
            None => !(p@.packet_base == base@ && (match p@.packet_parser_condition {
                SpecParserCondition::ParserCondition(id, v) => id == field@,
                _ => false,
            })),
        },
{
    if !string_is(&p.packet_base.id_name, base) {
        return None;
    }
    match &p.packet_parser_condition {
        crate::grammar::PacketParserCondition::ParserCondition(id, v) => {
            if string_is(&id.id_name, field) {
                let mut t = String::new();
                if indent {
                    t.append("    ");
                }
                push_dec(&mut t, v.value as u64);
                t.append(" : parse_");
                t.append(p.packet_id.id_name.as_str());
                t.append(";");
                Some(t)
            } else {
                None
            }
        },
        _ => None,
    }
}

fn select_cases(my_packets: &Packets) -> (r: (Option<String>, Option<String>, Option<String>))
    ensures
        match r.0 { Some(e) => eth_select(my_packets@) == Some(e@), None => eth_select(my_packets@) is None },
        match r.1 { Some(e) => ipv4_select(my_packets@) == Some(e@), None => ipv4_select(my_packets@) is None },
        match r.2 { Some(e) => udp_select(my_packets@) == Some(e@), None => udp_select(my_packets@) is None },
{
    if my_packets.packet_vector.len() > 0 {
        let p = &my_packets.packet_vector[0];
        assert(my_packets@[0] == p@);
        let eth = select_case(p, "ethernet", "etherType", true);
        let ipv4 = select_case(p, "ipv4", "protocol", false);
        let udp = select_case(p, "udp", "srcPort", false);
        proof {
            if let Some(ref e) = ipv4 {
                assert(e@ =~= Seq::<char>::empty() + e@);
            }
        }
        (eth, ipv4, udp)
    } else {
        (None, None, None)
    }
}

fn push_eth_part(contents: &mut String, eth: &Option<String>, Ghost(packets): Ghost<Seq<SpecPacket>>)
    requires match eth { Some(e) => eth_select(packets) == Some(e@), None => eth_select(packets) is None },
    ensures final(contents)@ == old(contents)@ + eth_part(packets),
{
    match eth {
        Some(e) => {
            contents.append("        ");
            contents.append(e.as_str());
            contents.append("\n");
        },
        None => {
            contents.append("    ");
            contents.append("    ");
            contents.append("default: ingress;\n");
        },
    }
}

fn push_ipv4_part(contents: &mut String, ipv4: &Option<String>, Ghost(packets): Ghost<Seq<SpecPacket>>)
    requires match ipv4 { Some(e) => ipv4_select(packets) == Some(e@), None => ipv4_select(packets) is None },
    ensures final(contents)@ == old(contents)@ + ipv4_part(packets),
{
    match ipv4 {
        Some(x) => {
            contents.append("        ");
            contents.append(x.as_str());
            contents.append("\n\n");
        },
        None => {
            contents.append("\n");
            contents.append("    ");
            contents.append("    ");
            contents.append("default: ingress;\n");
        },
    }
}

fn push_udp_part(contents: &mut String, udp: &Option<String>, Ghost(packets): Ghost<Seq<SpecPacket>>)
    requires match udp { Some(e) => udp_select(packets) == Some(e@), None => udp_select(packets) is None },
    ensures final(contents)@ == old(contents)@ + udp_part(packets),
{
    match udp {
        Some(u) => {
            push_parser_udp_select(contents);
            contents.append("    ");
            contents.append("    ");
            contents.append(u.as_str());
            contents.append("\n");
            contents.append("    ");
            contents.append("    ");
            contents.append("default: ingress;\n");
            contents.append("    ");
            contents.append("}\n}\n\n");
        },
        None => {
            push_parser_udp_plain(contents);
        },
    }
}

fn push_packet_parser_part(contents: &mut String, my_packets: &Packets)
    ensures final(contents)@ == old(contents)@ + packet_parser_part(my_packets@),
{
    if my_packets.packet_vector.len() > 0 {
        let p = &my_packets.packet_vector[0];
        assert(my_packets@[0] == p@);
        contents.append("parser parse_");
        contents.append(p.packet_id.id_name.as_str());
        contents.append(" {\n    extract(");
        contents.append(p.packet_id.id_name.as_str());
        contents.append(");\n    return ingress;\n}\n\n");
    } else {
        assert(old(contents)@ + Seq::<char>::empty() =~= old(contents)@);
    }
}

/// Whether the parser of the program can be generated (`parser_ok`).
pub fn parser_supported(my_packets: &Packets) -> (b: bool)
    ensures b == parser_ok(my_packets@),
{
    let (eth, ipv4, udp) = select_cases(my_packets);
    my_packets.packet_vector.len() == 0 || eth.is_some() || ipv4.is_some() || udp.is_some()
}

/// The parser of the program.
pub fn gen_p4_parser(my_dag: &Dag, my_packets: &Packets, contents: &mut String)
    requires
        parser_ok(my_packets@),
    ensures
        final(contents)@ == old(contents)@ + parser_text(my_packets@),
{
    let (eth, ipv4, udp) = select_cases(my_packets);
    push_parser_start(contents);
    push_eth_part(contents, &eth, Ghost(my_packets@));
    contents.append("    ");
    push_parser_ipv4(contents);
    push_ipv4_part(contents, &ipv4, Ghost(my_packets@));
    contents.append("    ");
    push_parser_tcp(contents);
    push_udp_part(contents, &udp, Ghost(my_packets@));
    push_packet_parser_part(contents, my_packets);
}

pub fn gen_p4_routing_tables(contents: &mut String)
    ensures final(contents)@ == old(contents)@ + routing_text(),
{
    push_routing(contents);
}

// ---------------------------------------------------------------------------------------------
// Metadata, registers and the control flow
// ---------------------------------------------------------------------------------------------

/// The metadata header type, where some node declares a metadata field, and the metadata
/// instance.
pub open spec fn metadata_text(dag: SpecDag) -> Seq<char> {
    let lines = concat_parts(dag.dag_vector, meta_part());
    (if lines.len() > 0 {
        "header_type metadata_t { \n"@ + tab() + "fields {\n"@ + lines + tab() + "}\n}\n"@
    } else {
        Seq::empty()
    }) + "metadata metadata_t mdata;\n"@
}

pub fn gen_p4_metadata(my_dag: &Dag, contents: &mut String)
    ensures final(contents)@ == old(contents)@ + metadata_text(my_dag@),
{
    let mut lines = String::new();
    push_parts(&mut lines, my_dag, NodePart::Meta);
    assert(lines@ =~= concat_parts(my_dag@.dag_vector, meta_part()));
    if !lines.as_str().is_empty() {
        contents.append("header_type metadata_t { \n");
        contents.append("    ");
        contents.append("fields {\n");
        contents.append(lines.as_str());
        contents.append("    ");
        contents.append("}\n}\n");
    }
    contents.append("metadata metadata_t mdata;\n");
}

pub open spec fn registers_text(dag: SpecDag) -> Seq<char> {
    concat_parts(dag.dag_vector, register_part())
}

pub fn gen_p4_registers(my_dag: &Dag, contents: &mut String)
    ensures final(contents)@ == old(contents)@ + registers_text(my_dag@),
{
    push_parts(contents, my_dag, NodePart::Register);
}

/// The actions and tables of the nodes, and the ingress control that applies them before
/// routing.
pub open spec fn body_text(dag: SpecDag) -> Seq<char> {
    concat_parts(dag.dag_vector, actions_part()) + concat_parts(dag.dag_vector, commons_part()) + "control ingress {\n"@
        + concat_parts(dag.dag_vector, control_part()) + ipv4_lpm_apply_text() + "}\n"@ + "control egress {\n"@ + "}\n"@
}

pub fn gen_p4_body(my_dag: &Dag, contents: &mut String)
    ensures final(contents)@ == old(contents)@ + body_text(my_dag@),
{
    push_parts(contents, my_dag, NodePart::Actions);
    push_parts(contents, my_dag, NodePart::Commons);
    contents.append("control ingress {\n");
    push_parts(contents, my_dag, NodePart::Control);
    push_ipv4_lpm_apply(contents);
    contents.append("}\n");
    contents.append("control egress {\n");
    contents.append("}\n");
}

/// The whole P4 program of a graph.
pub open spec fn program_text(packets: Seq<SpecPacket>, dag: SpecDag) -> Seq<char> {
    globals_text(dag) + headers_text(packets) + parser_text(packets) + routing_text() + metadata_text(dag)
        + registers_text(dag) + body_text(dag)
}

/// The P4 program of a graph, as the file for the snippet holds it.
pub fn gen_p4_program(my_packets: &Packets, snippet_dag: &Dag) -> (s: String)
    requires
        parser_ok(my_packets@),
    ensures
        s@ == program_text(my_packets@, snippet_dag@),
{
    let mut contents = String::new();
    gen_p4_globals(snippet_dag, &mut contents);
    gen_p4_headers(snippet_dag, my_packets, &mut contents);
    gen_p4_parser(snippet_dag, my_packets, &mut contents);
    gen_p4_routing_tables(&mut contents);
    gen_p4_metadata(snippet_dag, &mut contents);
    gen_p4_registers(snippet_dag, &mut contents);
    gen_p4_body(snippet_dag, &mut contents);
    contents
}

} // verus!
