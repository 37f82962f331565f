use vstd::prelude::*;
use crate::grammar::{Prog, Snippet, SpecSnippet};

verus! {

// Generates the SystemVerilog module skeleton of one snippet.

pub struct CodeGen;

/// The snippet to generate code for, and the code generated so far.
pub struct CodeGenCollector {
    pub snippet_name: String,
    pub generated_string: String,
}

/// `module NAME()\n\nendmodule`
pub open spec fn module_text(name: Seq<char>) -> Seq<char> {
    "module "@ + name + "()\n"@ + "\nendmodule"@
}

/// The code generated for the snippets `ss` when looking for the snippet `name`.
pub open spec fn generated_for(ss: Seq<SpecSnippet>, name: Seq<char>) -> Seq<char>
    decreases ss.len(),
{
    if ss.len() == 0 {
        Seq::empty()
    } else {
        generated_for(ss.drop_last(), name) + if ss.last().snippet_id == name {
            module_text(name)
        } else {
            Seq::empty()
        }
    }
}

impl CodeGen {
    /// Generates the module of `tree` if it is the snippet of interest.
    pub fn visit_snippet(tree: &Snippet, collector: &mut CodeGenCollector)
        ensures
            final(collector).snippet_name == old(collector).snippet_name,
            final(collector).generated_string@ == old(collector).generated_string@ + if tree.snippet_id.id_name@
                == old(collector).snippet_name@ {
                module_text(old(collector).snippet_name@)
            } else {
                Seq::empty()
            },
    {
        let ghost before = collector.generated_string@;
        if tree.snippet_id.id_name == collector.snippet_name {
            collector.generated_string.append("module ");
            collector.generated_string.append(tree.snippet_id.get_str());
            collector.generated_string.append("()\n");
            collector.generated_string.append("\nendmodule");
        }
        assert(collector.generated_string@ =~= before + if tree.snippet_id.id_name@ == collector.snippet_name@ {
            module_text(collector.snippet_name@)
        } else {
            Seq::empty()
        });
    }

    /// Generates the modules of the snippets of `tree` that are the snippet of interest.
    pub fn visit_prog(tree: &Prog, collector: &mut CodeGenCollector)
        ensures
            final(collector).snippet_name == old(collector).snippet_name,
            final(collector).generated_string@ == old(collector).generated_string@
                + generated_for(tree.snippets@, old(collector).snippet_name@),
    {
        let ghost before = collector.generated_string@;
        let ss = &tree.snippets.snippet_vector;
        let mut i: usize = 0;
        assert(tree.snippets@.subrange(0, 0) =~= Seq::<SpecSnippet>::empty());
        while i < ss.len()
            invariant
                i <= ss@.len(),
                tree.snippets@ == crate::grammar::vec_view(ss@),
                collector.snippet_name == old(collector).snippet_name,
                collector.generated_string@ == before + generated_for(tree.snippets@.subrange(0, i as int), collector.snippet_name@),
            decreases ss@.len() - i,
        {
            CodeGen::visit_snippet(&ss[i], collector);
            assert(tree.snippets@.subrange(0, i + 1).drop_last() =~= tree.snippets@.subrange(0, i as int));
            i = i + 1;
            assert(collector.generated_string@ =~= before + generated_for(tree.snippets@.subrange(0, i as int), collector.snippet_name@));
        }
        assert(tree.snippets@.subrange(0, i as int) =~= tree.snippets@);
    }
}

} // verus!
