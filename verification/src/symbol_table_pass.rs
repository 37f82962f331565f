use vstd::prelude::*;
use crate::grammar::{Identifier, Value, VarType};
use crate::tree_fold::{TreeFold, Gathering, Leaf, fold_leaves};

verus! {

/// The set of names held by a list of strings.
pub open spec fn name_set(v: Seq<String>) -> Set<Seq<char>> {
    Set::new(|n: Seq<char>| exists|i: int| 0 <= i < v.len() && (#[trigger] v[i])@ == n)
}

/// Whether `name` is among the strings of `v`.
pub fn contains_name(v: &Vec<String>, name: &String) -> (b: bool)
    ensures b == name_set(v@).contains(name@),
{
    let mut i: usize = 0;
    while i < v.len()
        invariant
            i <= v@.len(),
            forall|k: int| 0 <= k < i ==> (#[trigger] v@[k])@ != name@,
        decreases v@.len() - i,
    {
        if v[i] == *name {
            assert(v@[i as int]@ == name@);
            return true;
        }
        i = i + 1;
    }
    false
}

/// Adds `name` to the list unless it is there already.
pub fn insert_name(v: &mut Vec<String>, name: &String)
    ensures name_set(final(v)@) == name_set(old(v)@).insert(name@),
{
    if !contains_name(v, name) {
        let ghost before = v@;
        v.push(name.clone());
        assert(name_set(v@) =~= name_set(before).insert(name@)) by {
            assert forall|n: Seq<char>| name_set(v@).contains(n) implies name_set(before).insert(name@).contains(n) by {
                let i = choose|i: int| 0 <= i < v@.len() && (#[trigger] v@[i])@ == n;
                if i < before.len() {
                    assert(before[i] == v@[i]);
                }
            }
            assert forall|n: Seq<char>| name_set(before).insert(name@).contains(n) implies name_set(v@).contains(n) by {
                if n == name@ {
                    assert(v@[before.len() as int]@ == n);
                } else {
                    let i = choose|i: int| 0 <= i < before.len() && (#[trigger] before[i])@ == n;
                    assert(v@[i] == before[i]);
                }
            }
        }
    } else {
        assert(name_set(v@) =~= name_set(v@).insert(name@));
    }
}

/// Compiler pass that collects the names used in a program.
pub struct SymbolTablePass {
    pub symbol_table: Vec<String>,
}

impl SymbolTablePass {
    pub fn new() -> (s: SymbolTablePass)
        ensures
            s.symbol_table@.len() == 0,
            name_set(s.symbol_table@) == Set::<Seq<char>>::empty(),
    {
        let s = SymbolTablePass { symbol_table: Vec::new() };
        assert(name_set(s.symbol_table@) =~= Set::<Seq<char>>::empty());
        s
    }
}

// Gathers the names it meets; every other leaf leaves it as it is.
impl Gathering for SymbolTablePass {
    type Gathered = Set<Seq<char>>;

    open spec fn gathered(&self) -> Set<Seq<char>> {
        name_set(self.symbol_table@)
    }

    open spec fn meet(g: Set<Seq<char>>, leaf: Leaf) -> Set<Seq<char>> {
        match leaf {
            Leaf::Identifier(n) => g.insert(n),
            _ => g,
        }
    }
}

impl TreeFold for SymbolTablePass {
    fn visit_identifier(&mut self, tree: &Identifier)
        ensures name_set(final(self).symbol_table@) == name_set(old(self).symbol_table@).insert(tree.id_name@),
    {
        insert_name(&mut self.symbol_table, &tree.id_name);
    }

    fn visit_value(&mut self, tree: &Value) {
    }

    fn visit_var_type(&mut self, tree: &VarType) {
    }

    fn visit_id(&mut self, tree: &u64) {
    }

    fn visit_condtype(&mut self, tree: &u64) {
    }
}

/// The names among `leaves`.
pub open spec fn leaf_names(leaves: Seq<Leaf>) -> Set<Seq<char>> {
    Set::new(|n: Seq<char>| exists|i: int| 0 <= i < leaves.len() && leaves[i] == Leaf::Identifier(n))
}

/// A walk of the symbol table pass adds to its table exactly the names among the leaves it
/// meets, and keeps the names it held.
pub proof fn lemma_symbol_table_walk(g: Set<Seq<char>>, leaves: Seq<Leaf>)
    ensures fold_leaves::<SymbolTablePass>(g, leaves) == g + leaf_names(leaves),
    decreases leaves.len(),
{
    if leaves.len() == 0 {
        assert(leaf_names(leaves) =~= Set::<Seq<char>>::empty());
        assert(g + leaf_names(leaves) =~= g);
    } else {
        let init = leaves.drop_last();
        lemma_symbol_table_walk(g, init);
        let last = leaves.last();
        assert forall|n: Seq<char>| leaf_names(leaves).contains(n) implies
            leaf_names(init).contains(n) || last == Leaf::Identifier(n) by {
            let i = choose|i: int| 0 <= i < leaves.len() && leaves[i] == Leaf::Identifier(n);
            if i < leaves.len() - 1 {
                assert(init[i] == leaves[i]);
            }
        }
        assert forall|n: Seq<char>| leaf_names(init).contains(n) implies leaf_names(leaves).contains(n) by {
            let i = choose|i: int| 0 <= i < init.len() && init[i] == Leaf::Identifier(n);
            assert(leaves[i] == init[i]);
        }
        match last {
            Leaf::Identifier(m) => {
                assert(leaves[leaves.len() - 1] == Leaf::Identifier(m));
                assert(g + leaf_names(leaves) =~= (g + leaf_names(init)).insert(m));
            },
            _ => {
                assert(g + leaf_names(leaves) =~= g + leaf_names(init));
            },
        }
    }
}

} // verus!
