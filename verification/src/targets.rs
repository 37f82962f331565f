use vstd::prelude::*;
use crate::grammar::vec_view;
use crate::lexer::{chars_of, spells, push_char};
use crate::trans_snippet::{Dag, SpecDag};
use crate::grammar::{Packets, SpecPacket};
use crate::bmv2_program::{gen_p4_program, program_text, parser_ok, parser_supported};
use crate::bmv2_commands::{gen_control_plane_commands, commands_text, commands_ok, commands_checkable};
use crate::tofino_gen::tofino_program_text;

verus! {

// ---------------------------------------------------------------------------------------------
// Which generator a snippet's device calls for
// ---------------------------------------------------------------------------------------------

/// `w` occurs in `s`.
pub open spec fn contains_text(s: Seq<char>, w: Seq<char>) -> bool {
    exists|i: int| 0 <= i && i + w.len() <= s.len() && #[trigger] s.subrange(i, i + w.len()) == w
}

/// Whether `w` occurs in `s`.
pub fn text_contains(s: &str, w: &str) -> (b: bool)
    ensures b == contains_text(s@, w@),
{
    let t = chars_of(s);
    let v = chars_of(w);
    if v.len() > t.len() {
        return false;
    }
    if v.len() == 0 {
        assert(s@.subrange(0, 0 + w@.len() as int) =~= w@);
        assert(contains_text(s@, w@));
        return true;
    }
    let mut i: usize = 0;
    let last = t.len() - v.len();
    assert(t@.len() <= usize::MAX) by {
        assert(t.len() == t@.len());
    }
    while i <= last
        invariant
            t@ == s@,
            v@ == w@,
            0 < v@.len() <= t@.len(),
            t@.len() <= usize::MAX,
            last == t@.len() - v@.len(),
            i <= last + 1,
            forall|j: int| 0 <= j < i ==> #[trigger] t@.subrange(j, j + v@.len()) != v@,
        decreases last + 1 - i,
    {
        if spells(&t, i, i + v.len(), &v) {
            return true;
        }
        i = i + 1;
    }
    proof {
        assert forall|j: int| 0 <= j && j + w@.len() <= s@.len() implies #[trigger] s@.subrange(j, j + w@.len()) != w@ by {
            assert(j < i);
        }
    }
    false
}

/// The code generators.
#[derive(Debug, PartialEq, Eq, Structural, Clone, Copy)]
pub enum Target {
    Bmv2,
    Tofino,
    Unknown,
}

/// The generator for a device: BMv2 where its name mentions `bmv2`, else Tofino where it
/// mentions `tofino`.
pub open spec fn target_of(device_type: Seq<char>) -> Target {
    if contains_text(device_type, "bmv2"@) {
        Target::Bmv2
    } else if contains_text(device_type, "tofino"@) {
        Target::Tofino
    } else {
        Target::Unknown
    }
}

pub fn device_target(device_type: &str) -> (t: Target)
    ensures t == target_of(device_type@),
{
    if text_contains(device_type, "bmv2") {
        Target::Bmv2
    } else if text_contains(device_type, "tofino") {
        Target::Tofino
    } else {
        Target::Unknown
    }
}

// ---------------------------------------------------------------------------------------------
// Where the snippets run
// ---------------------------------------------------------------------------------------------

/// `"device" : "snippet",` for each device of each graph, in order.
pub open spec fn device_entries(dags: Seq<SpecDag>) -> Seq<char>
    decreases dags.len(),
{
    if dags.len() == 0 {
        Seq::empty()
    } else {
        device_entries(dags.drop_last()) + snippet_entries(dags.last().device_vector, dags.last().snippet_id)
    }
}

pub open spec fn snippet_entries(devices: Seq<Seq<char>>, snippet: Seq<char>) -> Seq<char>
    decreases devices.len(),
{
    if devices.len() == 0 {
        Seq::empty()
    } else {
        snippet_entries(devices.drop_last(), snippet) + "\""@ + devices.last() + "\" : \""@ + snippet + "\","@
    }
}

/// The topology can be written: there is one graph, or some graph names a device.
pub open spec fn topology_ok(dags: Seq<SpecDag>) -> bool {
    dags.len() == 1 || device_entries(dags).len() > 0
}

/// The placement of the snippets: a single snippet runs everywhere; otherwise each device is
/// mapped to the snippet that runs on it.
pub open spec fn topology_text(dags: Seq<SpecDag>) -> Seq<char> {
    if dags.len() == 1 {
        "{\"snippet_loc\" : \""@ + dags[0].snippet_id + "\"}"@
    } else {
        "{\"snippet_loc\" : {"@ + device_entries(dags).drop_last() + "}}"@
    }
}

fn push_snippet_entries(s: &mut String, dag: &Dag)
    ensures final(s)@ == old(s)@ + snippet_entries(dag@.device_vector, dag@.snippet_id),
{
    let ds = &dag.device_vector;
    let ghost dv = dag@.device_vector;
    let ghost s0 = s@;
    let mut i: usize = 0;
    assert(dv.take(0) =~= Seq::<Seq<char>>::empty());
    while i < ds.len()
        invariant
            i <= ds@.len(),
            dv == vec_view(ds@),
            s@ == s0 + snippet_entries(dv.take(i as int), dag@.snippet_id),
        decreases ds@.len() - i,
    {
        s.append("\"");
        s.append(ds[i].id_name.as_str());
        s.append("\" : \"");
        s.append(dag.snippet_id.as_str());
        s.append("\",");
        assert(dv.take(i + 1).drop_last() =~= dv.take(i as int));
        assert(dv.take(i + 1).last() == ds@[i as int]@);
        i = i + 1;
    }
    assert(dv.take(i as int) =~= dv);
}

fn entries_text(dags: &Vec<Dag>) -> (s: String)
    ensures s@ == device_entries(vec_view(dags@)),
{
    let ghost dv = vec_view(dags@);
    let mut s = String::new();
    let mut i: usize = 0;
    assert(dv.take(0) =~= Seq::<SpecDag>::empty());
    while i < dags.len()
        invariant
            i <= dags@.len(),
            dv == vec_view(dags@),
            s@ == device_entries(dv.take(i as int)),
        decreases dags@.len() - i,
    {
        push_snippet_entries(&mut s, &dags[i]);
        assert(dv.take(i + 1).drop_last() =~= dv.take(i as int));
        assert(dv.take(i + 1).last() == dags@[i as int]@);
        i = i + 1;
    }
    assert(dv.take(i as int) =~= dv);
    s
}

/// Whether the topology of the graphs can be written (`topology_ok`).
pub fn topology_writable(dags: &Vec<Dag>) -> (b: bool)
    ensures b == topology_ok(vec_view(dags@)),
{
    if dags.len() == 1 {
        return true;
    }
    let e = entries_text(dags);
    !e.as_str().is_empty()
}

/// The placement of the snippets on the devices (`topology_text`), one graph per snippet.
pub fn gen_topology_json(dags: &Vec<Dag>) -> (s: String)
    requires
        topology_ok(vec_view(dags@)),
    ensures
        s@ == topology_text(vec_view(dags@)),
{
    let mut s = String::new();
    if dags.len() == 1 {
        s.append("{\"snippet_loc\" : \"");
        s.append(dags[0].snippet_id.as_str());
        s.append("\"}");
        assert(vec_view(dags@)[0] == dags@[0]@);
    } else {
        s.append("{\"snippet_loc\" : {");
        let e = entries_text(dags);
        let cs = chars_of(e.as_str());
        let mut i: usize = 0;
        let ghost s0 = s@;
        let n = cs.len() - 1;
        while i < n
            invariant
                n == cs@.len() - 1,
                cs@ == e@,
                cs@.len() > 0,
                i <= n,
                s@ == s0 + cs@.take(i as int),
            decreases cs@.len() - i,
        {
            push_char(&mut s, cs[i]);
            assert(cs@.take(i + 1) =~= cs@.take(i as int).push(cs@[i as int]));
            i = i + 1;
        }
        assert(cs@.take(i as int) =~= cs@.drop_last());
        s.append("}}");
    }
    s
}

// ---------------------------------------------------------------------------------------------
// The files of the generated code
// ---------------------------------------------------------------------------------------------

/// A generated file: its path and its text.
pub type SpecFile = (Seq<char>, Seq<char>);

pub open spec fn p4_path(snippet: Seq<char>) -> Seq<char> {
    "out/"@ + snippet + ".p4"@
}

pub open spec fn commands_path(snippet: Seq<char>) -> Seq<char> {
    "bmv2_sim/commands/"@ + snippet + ".txt"@
}

/// The files of one graph: for BMv2 its P4 program and its table commands, for Tofino its P4
/// program, for any other device none.
pub open spec fn dag_files(packets: Seq<SpecPacket>, dag: SpecDag) -> Seq<SpecFile> {
    match target_of(dag.device_type) {
        Target::Bmv2 => seq![(p4_path(dag.snippet_id), program_text(packets, dag)),
            (commands_path(dag.snippet_id), commands_text(dag.dag_vector))],
        Target::Tofino => seq![(p4_path(dag.snippet_id), tofino_program_text(dag))],
        Target::Unknown => Seq::empty(),
    }
}

pub open spec fn code_files(packets: Seq<SpecPacket>, dags: Seq<SpecDag>) -> Seq<SpecFile>
    decreases dags.len(),
{
    if dags.len() == 0 {
        Seq::empty()
    } else {
        code_files(packets, dags.drop_last()) + dag_files(packets, dags.last())
    }
}

/// The code can be generated: the program's packets can be parsed, and the table commands of
/// every BMv2 graph can be written.
pub open spec fn code_ok(packets: Seq<SpecPacket>, dags: Seq<SpecDag>) -> bool {
    forall|k: int| 0 <= k < dags.len() && target_of((#[trigger] dags[k]).device_type) == Target::Bmv2
        ==> parser_ok(packets) && commands_ok(dags[k].dag_vector)
}

pub open spec fn files_view(v: Seq<(String, String)>) -> Seq<SpecFile> {
    v.map_values(|f: (String, String)| (f.0@, f.1@))
}

fn path_of(prefix: &str, snippet: &String, suffix: &str) -> (p: String)
    ensures p@ == prefix@ + snippet@ + suffix@,
{
    let mut p = String::new();
    p.append(prefix);
    p.append(snippet.as_str());
    p.append(suffix);
    p
}

/// Whether the code of the graphs can be generated (`code_ok`).
pub fn code_generable(my_packets: &Packets, dags: &Vec<Dag>) -> (b: bool)
    ensures b == code_ok(my_packets@, vec_view(dags@)),
{
    let ghost dv = vec_view(dags@);
    let parser = parser_supported(my_packets);
    let mut i: usize = 0;
    while i < dags.len()
        invariant
            i <= dags@.len(),
            dv == vec_view(dags@),
            parser == parser_ok(my_packets@),
            forall|k: int| 0 <= k < i && target_of((#[trigger] dv[k]).device_type) == Target::Bmv2
                ==> parser_ok(my_packets@) && commands_ok(dv[k].dag_vector),
        decreases dags@.len() - i,
    {
        let dag = &dags[i];
        assert(dv[i as int] == dag@);
        if device_target(dag.device_type.as_str()) == Target::Bmv2 {
            if !parser || !commands_checkable(dag) {
                assert(target_of(dv[i as int].device_type) == Target::Bmv2);
                return false;
            }
        }
        i = i + 1;
    }
    true
}

/// The files that the code generators write for the graphs (`code_files`), in order.
#[verifier::rlimit(40)]
pub fn gen_code(my_packets: &Packets, dags: &Vec<Dag>) -> (files: Vec<(String, String)>)
    requires
        code_ok(my_packets@, vec_view(dags@)),
    ensures
        files_view(files@) == code_files(my_packets@, vec_view(dags@)),
{
    let ghost dv = vec_view(dags@);
    let mut files: Vec<(String, String)> = Vec::new();
    let mut i: usize = 0;
    assert(dv.take(0) =~= Seq::<SpecDag>::empty());
    assert(files_view(files@) =~= Seq::<SpecFile>::empty());
    while i < dags.len()
        invariant
            i <= dags@.len(),
            dv == vec_view(dags@),
            code_ok(my_packets@, dv),
            files_view(files@) == code_files(my_packets@, dv.take(i as int)),
        decreases dags@.len() - i,
    {
        let dag = &dags[i];
        assert(dv[i as int] == dag@);
        let ghost before = files_view(files@);
        match device_target(dag.device_type.as_str()) {
            Target::Bmv2 => {
                assert(parser_ok(my_packets@) && commands_ok(dag@.dag_vector));
                let program = gen_p4_program(my_packets, dag);
                files.push((path_of("out/", &dag.snippet_id, ".p4"), program));
                let commands = gen_control_plane_commands(dag);
                files.push((path_of("bmv2_sim/commands/", &dag.snippet_id, ".txt"), commands));
            },
            Target::Tofino => {
                let program = crate::tofino_gen::gen_p4_program(dag);
                files.push((path_of("out/", &dag.snippet_id, ".p4"), program));
            },
            Target::Unknown => {},
        }
        proof {
            assert(dv.take(i + 1).drop_last() =~= dv.take(i as int));
            assert(dv.take(i + 1).last() == dag@);
            assert(files_view(files@) =~= before + dag_files(my_packets@, dag@));
        }
        i = i + 1;
    }
    assert(dv.take(i as int) =~= dv);
    files
}

} // verus!
