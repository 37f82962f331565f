use vstd::prelude::*;
use crate::grammar::{
    Prog, Globals, Packets, Packet, PacketFields, PacketField, Snippets, Snippet, Connections,
    Connection, VariableDecls, VariableDecl, VarType, IfBlocks, IfBlock, Statements, Statement,
    Condition, Expr, ExprRight, Operand, LValue, Identifier, Value, SpecOperand, SpecLValue,
    SpecProg, SpecPacket, SpecPacketField, SpecSnippet, SpecConnection, SpecVariableDecl,
    SpecVarType, SpecIfBlock, SpecStatement, SpecExpr, SpecExprRight, vec_view,
    lemma_vec_view_push,
};

verus! {

// ---------------------------------------------------------------------------------------------
// What a walk meets: the leaves of the tree, in the order in which the walk visits them
// ---------------------------------------------------------------------------------------------

/// A leaf of the syntax tree, as a walk hands it to the leaf hooks.
pub enum Leaf {
    Identifier(Seq<char>),
    Value(u32),
    VarType(SpecVarType),
    Id(u64),
    Condtype(u64),
}

/// The state gathered after meeting each of `leaves` in turn, starting from `g`.
pub open spec fn fold_leaves<T: Gathering>(g: T::Gathered, leaves: Seq<Leaf>) -> T::Gathered
    decreases leaves.len(),
{
    if leaves.len() == 0 {
        g
    } else {
        T::meet(fold_leaves::<T>(g, leaves.drop_last()), leaves.last())
    }
}

/// Meeting `a` and then `b` is meeting `a + b`.
pub proof fn lemma_fold_leaves_append<T: Gathering>(g: T::Gathered, a: Seq<Leaf>, b: Seq<Leaf>)
    ensures fold_leaves::<T>(g, a + b) == fold_leaves::<T>(fold_leaves::<T>(g, a), b),
    decreases b.len(),
{
    if b.len() == 0 {
        assert(a + b =~= a);
    } else {
        assert((a + b).drop_last() =~= a + b.drop_last());
        lemma_fold_leaves_append::<T>(g, a, b.drop_last());
    }
}

/// The leaves of the elements of `s`, one element after the other.
pub open spec fn flat_leaves<A>(s: Seq<A>, f: spec_fn(A) -> Seq<Leaf>) -> Seq<Leaf>
    decreases s.len(),
{
    if s.len() == 0 {
        Seq::empty()
    } else {
        flat_leaves(s.drop_last(), f) + f(s.last())
    }
}

/// One more element of a list walked in order.
pub proof fn lemma_flat_leaves_step<T: Gathering, A>(
    g0: T::Gathered,
    s: Seq<A>,
    f: spec_fn(A) -> Seq<Leaf>,
    i: int,
    mid: T::Gathered,
    after: T::Gathered,
)
    requires
        0 <= i < s.len(),
        mid == fold_leaves::<T>(g0, flat_leaves(s.take(i), f)),
        after == fold_leaves::<T>(mid, f(s[i])),
    ensures
        after == fold_leaves::<T>(g0, flat_leaves(s.take(i + 1), f)),
{
    assert(s.take(i + 1).drop_last() =~= s.take(i));
    assert(s.take(i + 1).last() == s[i]);
    lemma_fold_leaves_append::<T>(g0, flat_leaves(s.take(i), f), f(s[i]));
}

/// A list walked to its end.
pub proof fn lemma_flat_leaves_all<A>(s: Seq<A>, f: spec_fn(A) -> Seq<Leaf>)
    ensures flat_leaves(s.take(s.len() as int), f) == flat_leaves(s, f),
{
    assert(s.take(s.len() as int) =~= s);
}

/// The leaf that a name or number of an array address is.
pub open spec fn part_leaf(p: SpecAddressPart) -> Leaf {
    match p {
        SpecAddressPart::Name(n) => Leaf::Identifier(n),
        SpecAddressPart::Number(v) => Leaf::Value(v),
    }
}

pub open spec fn parts_leaves(ps: Seq<SpecAddressPart>) -> Seq<Leaf> {
    ps.map_values(|p: SpecAddressPart| part_leaf(p))
}

pub open spec fn operand_leaves(o: SpecOperand) -> Seq<Leaf> {
    parts_leaves(operand_parts(o))
}

pub open spec fn lvalue_leaves(l: SpecLValue) -> Seq<Leaf> {
    operand_leaves(SpecOperand::LValue(l))
}

pub open spec fn expr_right_leaves(r: SpecExprRight) -> Seq<Leaf> {
    match r {
        SpecExprRight::BinOp(_, o) => operand_leaves(o),
        SpecExprRight::Cond(a, b) => operand_leaves(a) + operand_leaves(b),
        SpecExprRight::Empty => Seq::empty(),
    }
}

pub open spec fn expr_leaves(e: SpecExpr) -> Seq<Leaf> {
    operand_leaves(e.op1) + expr_right_leaves(e.expr_right)
}

pub open spec fn statement_leaves(s: SpecStatement) -> Seq<Leaf> {
    lvalue_leaves(s.lvalue) + expr_leaves(s.expr)
}

pub open spec fn statement_leaves_fn() -> spec_fn(SpecStatement) -> Seq<Leaf> {
    |s: SpecStatement| statement_leaves(s)
}

pub open spec fn statements_leaves(ss: Seq<SpecStatement>) -> Seq<Leaf> {
    flat_leaves(ss, statement_leaves_fn())
}

pub open spec fn ifblock_leaves(b: SpecIfBlock) -> Seq<Leaf> {
    seq![Leaf::Id(b.id)] + statements_leaves(b.statements) + expr_leaves(b.condition)
        + seq![Leaf::Condtype(b.condtype)]
}

pub open spec fn ifblock_leaves_fn() -> spec_fn(SpecIfBlock) -> Seq<Leaf> {
    |b: SpecIfBlock| ifblock_leaves(b)
}

pub open spec fn ifblocks_leaves(bs: Seq<SpecIfBlock>) -> Seq<Leaf> {
    flat_leaves(bs, ifblock_leaves_fn())
}

pub open spec fn values_leaves(vs: Seq<u32>) -> Seq<Leaf> {
    vs.map_values(|v: u32| Leaf::Value(v))
}

pub open spec fn decl_leaves(d: SpecVariableDecl) -> Seq<Leaf> {
    seq![Leaf::Identifier(d.identifier)] + values_leaves(d.initial_values)
        + seq![Leaf::VarType(d.var_type)]
}

pub open spec fn decl_leaves_fn() -> spec_fn(SpecVariableDecl) -> Seq<Leaf> {
    |d: SpecVariableDecl| decl_leaves(d)
}

pub open spec fn decls_leaves(ds: Seq<SpecVariableDecl>) -> Seq<Leaf> {
    flat_leaves(ds, decl_leaves_fn())
}

pub open spec fn field_leaves(f: SpecPacketField) -> Seq<Leaf> {
    seq![Leaf::Identifier(f.identifier), Leaf::VarType(f.var_type)]
}

pub open spec fn field_leaves_fn() -> spec_fn(SpecPacketField) -> Seq<Leaf> {
    |f: SpecPacketField| field_leaves(f)
}

pub open spec fn fields_leaves(fs: Seq<SpecPacketField>) -> Seq<Leaf> {
    flat_leaves(fs, field_leaves_fn())
}

pub open spec fn packet_leaves(p: SpecPacket) -> Seq<Leaf> {
    seq![Leaf::Identifier(p.packet_id)] + fields_leaves(p.packet_fields)
}

pub open spec fn packet_leaves_fn() -> spec_fn(SpecPacket) -> Seq<Leaf> {
    |p: SpecPacket| packet_leaves(p)
}

pub open spec fn packets_leaves(ps: Seq<SpecPacket>) -> Seq<Leaf> {
    flat_leaves(ps, packet_leaves_fn())
}

pub open spec fn snippet_leaves(s: SpecSnippet) -> Seq<Leaf> {
    seq![Leaf::Identifier(s.snippet_id)] + decls_leaves(s.variable_decls)
        + ifblocks_leaves(s.ifblocks)
}

pub open spec fn snippet_leaves_fn() -> spec_fn(SpecSnippet) -> Seq<Leaf> {
    |s: SpecSnippet| snippet_leaves(s)
}

pub open spec fn snippets_leaves(ss: Seq<SpecSnippet>) -> Seq<Leaf> {
    flat_leaves(ss, snippet_leaves_fn())
}

pub open spec fn connection_leaves(c: SpecConnection) -> Seq<Leaf> {
    seq![Leaf::Identifier(c.from_snippet), Leaf::Identifier(c.to_snippet)]
}

pub open spec fn connection_leaves_fn() -> spec_fn(SpecConnection) -> Seq<Leaf> {
    |c: SpecConnection| connection_leaves(c)
}

pub open spec fn connections_leaves(cs: Seq<SpecConnection>) -> Seq<Leaf> {
    flat_leaves(cs, connection_leaves_fn())
}

/// Every leaf of a program, in the order in which the walk of `visit_prog` meets them.
pub open spec fn prog_leaves(p: SpecProg) -> Seq<Leaf> {
    decls_leaves(p.globals) + packets_leaves(p.packets) + snippets_leaves(p.snippets)
        + connections_leaves(p.connections)
}

/// Meeting a single leaf.
pub proof fn lemma_fold_leaves_one<T: Gathering>(g: T::Gathered, l: Leaf)
    ensures fold_leaves::<T>(g, seq![l]) == T::meet(g, l),
{
    assert(seq![l].drop_last() =~= Seq::<Leaf>::empty());
    assert(fold_leaves::<T>(g, Seq::<Leaf>::empty()) == g);
    assert(seq![l].last() == l);
}

/// Meeting one more leaf at the end.
pub proof fn lemma_fold_leaves_push<T: Gathering>(g: T::Gathered, s: Seq<Leaf>, l: Leaf)
    ensures fold_leaves::<T>(g, s.push(l)) == T::meet(fold_leaves::<T>(g, s), l),
{
    assert(s.push(l).drop_last() =~= s);
}

/// What a walk gathers (`gathered`) and how meeting one leaf changes it (`meet`).
pub trait Gathering: Sized {
    type Gathered;

    spec fn gathered(&self) -> Self::Gathered;

    /// What meeting `leaf` makes of `g`.
    spec fn meet(g: Self::Gathered, leaf: Leaf) -> Self::Gathered;
}

/// A walk over a syntax tree that updates `self`.  Implementations implement the leaf hooks
/// and override the walks over the kinds of node they are interested in; each walk meets the
/// leaves of its node in the order of `prog_leaves` and its parts.
pub trait TreeFold: Gathering {
    fn visit_prog(&mut self, tree: &Prog)
        ensures
            final(self).gathered() == fold_leaves::<Self>(old(self).gathered(), prog_leaves(tree@)),
    {
        let ghost g0 = self.gathered();
        self.visit_globals(&tree.globals);
        self.visit_packets(&tree.packets);
        self.visit_snippets(&tree.snippets);
        self.visit_connections(&tree.connections);
        proof {
            let a = decls_leaves(tree@.globals);
            let b = packets_leaves(tree@.packets);
            let c = snippets_leaves(tree@.snippets);
            let d = connections_leaves(tree@.connections);
            lemma_fold_leaves_append::<Self>(g0, a, b);
            lemma_fold_leaves_append::<Self>(g0, a + b, c);
            lemma_fold_leaves_append::<Self>(g0, a + b + c, d);
        }
    }

    fn visit_globals(&mut self, tree: &Globals)
        ensures
            final(self).gathered() == fold_leaves::<Self>(old(self).gathered(), decls_leaves(tree@)),
    {
        let ghost g0 = self.gathered();
        let ghost s = tree@;
        let mut i: usize = 0;
        assert(s.take(0).len() == 0);
        while i < tree.global_vector.len()
            invariant
                i <= tree.global_vector@.len(),
                s == tree@,
                self.gathered() == fold_leaves::<Self>(g0, flat_leaves(s.take(i as int), decl_leaves_fn())),
            decreases tree.global_vector@.len() - i,
        {
            let ghost mid = self.gathered();
            self.visit_variable_decl(&tree.global_vector[i]);
            proof {
                assert(s[i as int] == tree.global_vector@[i as int]@);
                lemma_flat_leaves_step::<Self, SpecVariableDecl>(g0, s, decl_leaves_fn(), i as int, mid, self.gathered());
            }
            i = i + 1;
        }
        proof { lemma_flat_leaves_all(s, decl_leaves_fn()); }
    }

    fn visit_packets(&mut self, tree: &Packets)
        ensures
            final(self).gathered() == fold_leaves::<Self>(old(self).gathered(), packets_leaves(tree@)),
    {
        let ghost g0 = self.gathered();
        let ghost s = tree@;
        let mut i: usize = 0;
        assert(s.take(0).len() == 0);
        while i < tree.packet_vector.len()
            invariant
                i <= tree.packet_vector@.len(),
                s == tree@,
                self.gathered() == fold_leaves::<Self>(g0, flat_leaves(s.take(i as int), packet_leaves_fn())),
            decreases tree.packet_vector@.len() - i,
        {
            let ghost mid = self.gathered();
            self.visit_packet(&tree.packet_vector[i]);
            proof {
                assert(s[i as int] == tree.packet_vector@[i as int]@);
                lemma_flat_leaves_step::<Self, SpecPacket>(g0, s, packet_leaves_fn(), i as int, mid, self.gathered());
            }
            i = i + 1;
        }
        proof { lemma_flat_leaves_all(s, packet_leaves_fn()); }
    }

    fn visit_packet(&mut self, tree: &Packet)
        ensures
            final(self).gathered() == fold_leaves::<Self>(old(self).gathered(), packet_leaves(tree@)),
    {
        let ghost g0 = self.gathered();
        self.visit_identifier(&tree.packet_id);
        self.visit_packet_fields(&tree.packet_fields);
        proof {
            let a = seq![Leaf::Identifier(tree@.packet_id)];
            lemma_fold_leaves_one::<Self>(g0, Leaf::Identifier(tree@.packet_id));
            lemma_fold_leaves_append::<Self>(g0, a, fields_leaves(tree@.packet_fields));
        }
    }

    fn visit_packet_fields(&mut self, tree: &PacketFields)
        ensures
            final(self).gathered() == fold_leaves::<Self>(old(self).gathered(), fields_leaves(tree@)),
    {
        let ghost g0 = self.gathered();
        let ghost s = tree@;
        let mut i: usize = 0;
        assert(s.take(0).len() == 0);
        while i < tree.field_vector.len()
            invariant
                i <= tree.field_vector@.len(),
                s == tree@,
                self.gathered() == fold_leaves::<Self>(g0, flat_leaves(s.take(i as int), field_leaves_fn())),
            decreases tree.field_vector@.len() - i,
        {
            let ghost mid = self.gathered();
            self.visit_packet_field(&tree.field_vector[i]);
            proof {
                assert(s[i as int] == tree.field_vector@[i as int]@);
                lemma_flat_leaves_step::<Self, SpecPacketField>(g0, s, field_leaves_fn(), i as int, mid, self.gathered());
            }
            i = i + 1;
        }
        proof { lemma_flat_leaves_all(s, field_leaves_fn()); }
    }

    fn visit_packet_field(&mut self, tree: &PacketField)
        ensures
            final(self).gathered() == fold_leaves::<Self>(old(self).gathered(), field_leaves(tree@)),
    {
        let ghost g0 = self.gathered();
        self.visit_identifier(&tree.identifier);
        let ghost g1 = self.gathered();
        self.visit_var_type(&tree.var_type);
        proof {
            let a = Leaf::Identifier(tree@.identifier);
            let b = Leaf::VarType(tree@.var_type);
            lemma_fold_leaves_one::<Self>(g0, a);
            lemma_fold_leaves_push::<Self>(g0, seq![a], b);
            assert(seq![a].push(b) =~= seq![a, b]);
        }
    }

    fn visit_snippets(&mut self, tree: &Snippets)
        ensures
            final(self).gathered() == fold_leaves::<Self>(old(self).gathered(), snippets_leaves(tree@)),
    {
        let ghost g0 = self.gathered();
        let ghost s = tree@;
        let mut i: usize = 0;
        assert(s.take(0).len() == 0);
        while i < tree.snippet_vector.len()
            invariant
                i <= tree.snippet_vector@.len(),
                s == tree@,
                self.gathered() == fold_leaves::<Self>(g0, flat_leaves(s.take(i as int), snippet_leaves_fn())),
            decreases tree.snippet_vector@.len() - i,
        {
            let ghost mid = self.gathered();
            self.visit_snippet(&tree.snippet_vector[i]);
            proof {
                assert(s[i as int] == tree.snippet_vector@[i as int]@);
                lemma_flat_leaves_step::<Self, SpecSnippet>(g0, s, snippet_leaves_fn(), i as int, mid, self.gathered());
            }
            i = i + 1;
        }
        proof { lemma_flat_leaves_all(s, snippet_leaves_fn()); }
    }

    fn visit_snippet(&mut self, tree: &Snippet)
        ensures
            final(self).gathered() == fold_leaves::<Self>(old(self).gathered(), snippet_leaves(tree@)),
    {
        let ghost g0 = self.gathered();
        self.visit_identifier(&tree.snippet_id);
        self.visit_variable_decls(&tree.variable_decls);
        self.visit_ifblocks(&tree.ifblocks);
        proof {
            let a = seq![Leaf::Identifier(tree@.snippet_id)];
            let b = decls_leaves(tree@.variable_decls);
            let c = ifblocks_leaves(tree@.ifblocks);
            lemma_fold_leaves_one::<Self>(g0, Leaf::Identifier(tree@.snippet_id));
            lemma_fold_leaves_append::<Self>(g0, a, b);
            lemma_fold_leaves_append::<Self>(g0, a + b, c);
        }
    }

    fn visit_connections(&mut self, tree: &Connections)
        ensures
            final(self).gathered() == fold_leaves::<Self>(old(self).gathered(), connections_leaves(tree@)),
    {
        let ghost g0 = self.gathered();
        let ghost s = tree@;
        let mut i: usize = 0;
        assert(s.take(0).len() == 0);
        while i < tree.connection_vector.len()
            invariant
                i <= tree.connection_vector@.len(),
                s == tree@,
                self.gathered() == fold_leaves::<Self>(g0, flat_leaves(s.take(i as int), connection_leaves_fn())),
            decreases tree.connection_vector@.len() - i,
        {
            let ghost mid = self.gathered();
            self.visit_connection(&tree.connection_vector[i]);
            proof {
                assert(s[i as int] == tree.connection_vector@[i as int]@);
                lemma_flat_leaves_step::<Self, SpecConnection>(g0, s, connection_leaves_fn(), i as int, mid, self.gathered());
            }
            i = i + 1;
        }
        proof { lemma_flat_leaves_all(s, connection_leaves_fn()); }
    }

    fn visit_connection(&mut self, tree: &Connection)
        ensures
            final(self).gathered() == fold_leaves::<Self>(old(self).gathered(), connection_leaves(tree@)),
    {
        let ghost g0 = self.gathered();
        self.visit_identifier(&tree.from_snippet);
        self.visit_identifier(&tree.to_snippet);
        proof {
            let a = Leaf::Identifier(tree@.from_snippet);
            let b = Leaf::Identifier(tree@.to_snippet);
            lemma_fold_leaves_one::<Self>(g0, a);
            lemma_fold_leaves_push::<Self>(g0, seq![a], b);
            assert(seq![a].push(b) =~= seq![a, b]);
        }
    }

    fn visit_variable_decls(&mut self, tree: &VariableDecls)
        ensures
            final(self).gathered() == fold_leaves::<Self>(old(self).gathered(), decls_leaves(tree@)),
    {
        let ghost g0 = self.gathered();
        let ghost s = tree@;
        let mut i: usize = 0;
        assert(s.take(0).len() == 0);
        while i < tree.decl_vector.len()
            invariant
                i <= tree.decl_vector@.len(),
                s == tree@,
                self.gathered() == fold_leaves::<Self>(g0, flat_leaves(s.take(i as int), decl_leaves_fn())),
            decreases tree.decl_vector@.len() - i,
        {
            let ghost mid = self.gathered();
            self.visit_variable_decl(&tree.decl_vector[i]);
            proof {
                assert(s[i as int] == tree.decl_vector@[i as int]@);
                lemma_flat_leaves_step::<Self, SpecVariableDecl>(g0, s, decl_leaves_fn(), i as int, mid, self.gathered());
            }
            i = i + 1;
        }
        proof { lemma_flat_leaves_all(s, decl_leaves_fn()); }
    }

    fn visit_variable_decl(&mut self, tree: &VariableDecl)
        ensures
            final(self).gathered() == fold_leaves::<Self>(old(self).gathered(), decl_leaves(tree@)),
    {
        let ghost g0 = self.gathered();
        self.visit_identifier(&tree.identifier);
        let ghost g1 = self.gathered();
        let ghost vs = tree@.initial_values;
        let mut i: usize = 0;
        assert(values_leaves(vs.take(0)) =~= Seq::<Leaf>::empty());
        while i < tree.initial_values.len()
            invariant
                i <= tree.initial_values@.len(),
                vs == tree@.initial_values,
                self.gathered() == fold_leaves::<Self>(g1, values_leaves(vs.take(i as int))),
            decreases tree.initial_values@.len() - i,
        {
            let ghost mid = self.gathered();
            self.visit_value(&tree.initial_values[i]);
            proof {
                assert(vs[i as int] == tree.initial_values@[i as int]@);
                assert(values_leaves(vs.take(i + 1)) =~= values_leaves(vs.take(i as int)).push(Leaf::Value(vs[i as int])));
                lemma_fold_leaves_push::<Self>(g1, values_leaves(vs.take(i as int)), Leaf::Value(vs[i as int]));
            }
            i = i + 1;
        }
        let ghost g2 = self.gathered();
        self.visit_var_type(&tree.var_type);
        proof {
            let a = seq![Leaf::Identifier(tree@.identifier)];
            assert(vs.take(vs.len() as int) =~= vs);
            let b = values_leaves(vs);
            let c = Leaf::VarType(tree@.var_type);
            lemma_fold_leaves_one::<Self>(g0, Leaf::Identifier(tree@.identifier));
            lemma_fold_leaves_append::<Self>(g0, a, b);
            lemma_fold_leaves_push::<Self>(g0, a + b, c);
            assert((a + b).push(c) =~= a + b + seq![c]);
        }
    }

    fn visit_var_type(&mut self, tree: &VarType)
        ensures
            final(self).gathered() == Self::meet(old(self).gathered(), Leaf::VarType(tree@)),
    ;

    fn visit_ifblocks(&mut self, tree: &IfBlocks)
        ensures
            final(self).gathered() == fold_leaves::<Self>(old(self).gathered(), ifblocks_leaves(tree@)),
    {
        let ghost g0 = self.gathered();
        let ghost s = tree@;
        let mut i: usize = 0;
        assert(s.take(0).len() == 0);
        while i < tree.ifblock_vector.len()
            invariant
                i <= tree.ifblock_vector@.len(),
                s == tree@,
                self.gathered() == fold_leaves::<Self>(g0, flat_leaves(s.take(i as int), ifblock_leaves_fn())),
            decreases tree.ifblock_vector@.len() - i,
        {
            let ghost mid = self.gathered();
            self.visit_ifblock(&tree.ifblock_vector[i]);
            proof {
                assert(s[i as int] == tree.ifblock_vector@[i as int]@);
                lemma_flat_leaves_step::<Self, SpecIfBlock>(g0, s, ifblock_leaves_fn(), i as int, mid, self.gathered());
            }
            i = i + 1;
        }
        proof { lemma_flat_leaves_all(s, ifblock_leaves_fn()); }
    }

    fn visit_ifblock(&mut self, tree: &IfBlock)
        ensures
            final(self).gathered() == fold_leaves::<Self>(old(self).gathered(), ifblock_leaves(tree@)),
    {
        let ghost g0 = self.gathered();
        self.visit_id(&tree.id);
        self.visit_statements(&tree.statements);
        self.visit_condition(&tree.condition);
        let ghost g3 = self.gathered();
        self.visit_condtype(&tree.condtype);
        proof {
            let a = seq![Leaf::Id(tree@.id)];
            let b = statements_leaves(tree@.statements);
            let c = expr_leaves(tree@.condition);
            let d = Leaf::Condtype(tree@.condtype);
            lemma_fold_leaves_one::<Self>(g0, Leaf::Id(tree@.id));
            lemma_fold_leaves_append::<Self>(g0, a, b);
            lemma_fold_leaves_append::<Self>(g0, a + b, c);
            lemma_fold_leaves_push::<Self>(g0, a + b + c, d);
            assert((a + b + c).push(d) =~= a + b + c + seq![d]);
        }
    }

    fn visit_statements(&mut self, tree: &Statements)
        ensures
            final(self).gathered() == fold_leaves::<Self>(old(self).gathered(), statements_leaves(tree@)),
    {
        let ghost g0 = self.gathered();
        let ghost s = tree@;
        let mut i: usize = 0;
        assert(s.take(0).len() == 0);
        while i < tree.stmt_vector.len()
            invariant
                i <= tree.stmt_vector@.len(),
                s == tree@,
                self.gathered() == fold_leaves::<Self>(g0, flat_leaves(s.take(i as int), statement_leaves_fn())),
            decreases tree.stmt_vector@.len() - i,
        {
            let ghost mid = self.gathered();
            self.visit_statement(&tree.stmt_vector[i]);
            proof {
                assert(s[i as int] == tree.stmt_vector@[i as int]@);
                lemma_flat_leaves_step::<Self, SpecStatement>(g0, s, statement_leaves_fn(), i as int, mid, self.gathered());
            }
            i = i + 1;
        }
        proof { lemma_flat_leaves_all(s, statement_leaves_fn()); }
    }

    fn visit_statement(&mut self, tree: &Statement)
        ensures
            final(self).gathered() == fold_leaves::<Self>(old(self).gathered(), statement_leaves(tree@)),
    {
        let ghost g0 = self.gathered();
        self.visit_lvalue(&tree.lvalue);
        self.visit_expr(&tree.expr);
        proof {
            lemma_fold_leaves_append::<Self>(g0, lvalue_leaves(tree@.lvalue), expr_leaves(tree@.expr));
        }
    }

    fn visit_condition(&mut self, tree: &Condition)
        ensures
            final(self).gathered() == fold_leaves::<Self>(old(self).gathered(), expr_leaves(tree@)),
    {
        self.visit_expr(&tree.expr);
    }

    fn visit_expr(&mut self, tree: &Expr)
        ensures
            final(self).gathered() == fold_leaves::<Self>(old(self).gathered(), expr_leaves(tree@)),
    {
        let ghost g0 = self.gathered();
        self.visit_operand(&tree.op1);
        self.visit_expr_right(&tree.expr_right);
        proof {
            lemma_fold_leaves_append::<Self>(g0, operand_leaves(tree@.op1), expr_right_leaves(tree@.expr_right));
        }
    }

    fn visit_expr_right(&mut self, tree: &ExprRight)
        ensures
            final(self).gathered() == fold_leaves::<Self>(old(self).gathered(), expr_right_leaves(tree@)),
    {
        let ghost g0 = self.gathered();
        match tree {
            ExprRight::BinOp(_, operand) => self.visit_operand(operand),
            ExprRight::Cond(operand_true, operand_false) => {
                self.visit_operand(operand_true);
                self.visit_operand(operand_false);
                proof {
                    lemma_fold_leaves_append::<Self>(g0, operand_leaves(operand_true@), operand_leaves(operand_false@));
                }
            },
            ExprRight::Empty() => {},
        }
    }

    fn visit_operand(&mut self, tree: &Operand)
        ensures
            final(self).gathered() == fold_leaves::<Self>(old(self).gathered(), operand_leaves(tree@)),
    {
        let ghost g0 = self.gathered();
        match tree {
            Operand::LValue(lvalue) => self.visit_lvalue(lvalue),
            Operand::Value(value) => {
                self.visit_value(value);
                proof {
                    assert(operand_leaves(tree@) =~= seq![Leaf::Value(value@)]);
                    lemma_fold_leaves_one::<Self>(g0, Leaf::Value(value@));
                }
            },
        }
    }

    fn visit_lvalue(&mut self, tree: &LValue)
        ensures
            final(self).gathered() == fold_leaves::<Self>(old(self).gathered(), lvalue_leaves(tree@)),
    {
        let ghost g0 = self.gathered();
        match tree {
            LValue::Scalar(scalar_name) => {
                self.visit_identifier(scalar_name);
                proof {
                    assert(lvalue_leaves(tree@) =~= seq![Leaf::Identifier(scalar_name@)]);
                    lemma_fold_leaves_one::<Self>(g0, Leaf::Identifier(scalar_name@));
                }
            },
            LValue::Array(array_name, operand) => {
                self.visit_identifier(array_name);
                self.visit_array_address(operand);
                proof {
                    let a = seq![Leaf::Identifier(array_name@)];
                    let b = operand_leaves((**operand)@);
                    assert(lvalue_leaves(tree@) =~= a + b);
                    lemma_fold_leaves_one::<Self>(g0, Leaf::Identifier(array_name@));
                    lemma_fold_leaves_append::<Self>(g0, a, b);
                }
            },
            LValue::Field(struct_name, field_name) => {
                self.visit_identifier(struct_name);
                self.visit_identifier(field_name);
                proof {
                    let a = Leaf::Identifier(struct_name@);
                    let b = Leaf::Identifier(field_name@);
                    assert(lvalue_leaves(tree@) =~= seq![a].push(b));
                    lemma_fold_leaves_one::<Self>(g0, a);
                    lemma_fold_leaves_push::<Self>(g0, seq![a], b);
                }
            },
        }
    }

    /// The address of an array element: each name and number in it, in order.
    fn visit_array_address(&mut self, tree: &Operand)
        ensures
            final(self).gathered() == fold_leaves::<Self>(old(self).gathered(), operand_leaves(tree@)),
    {
        let ghost g0 = self.gathered();
        let mut parts: Vec<AddressPart> = Vec::new();
        address_parts(tree, &mut parts);
        let ghost ps = vec_view(parts@);
        assert(ps =~= operand_parts(tree@));
        let mut i: usize = 0;
        assert(parts_leaves(ps.take(0)) =~= Seq::<Leaf>::empty());
        while i < parts.len()
            invariant
                i <= parts@.len(),
                ps == vec_view(parts@),
                self.gathered() == fold_leaves::<Self>(g0, parts_leaves(ps.take(i as int))),
            decreases parts@.len() - i,
        {
            let ghost mid = self.gathered();
            match &parts[i] {
                AddressPart::Name(name) => self.visit_identifier(name),
                AddressPart::Number(value) => self.visit_value(value),
            }
            proof {
                assert(ps[i as int] == parts@[i as int]@);
                assert(parts_leaves(ps.take(i + 1)) =~= parts_leaves(ps.take(i as int)).push(part_leaf(ps[i as int])));
                lemma_fold_leaves_push::<Self>(g0, parts_leaves(ps.take(i as int)), part_leaf(ps[i as int]));
            }
            i = i + 1;
        }
        assert(ps.take(ps.len() as int) =~= ps);
    }

    fn visit_id(&mut self, tree: &u64)
        ensures
            final(self).gathered() == Self::meet(old(self).gathered(), Leaf::Id(*tree)),
    ;

    fn visit_condtype(&mut self, tree: &u64)
        ensures
            final(self).gathered() == Self::meet(old(self).gathered(), Leaf::Condtype(*tree)),
    ;

    fn visit_nextsnippet(&mut self, tree: &Identifier) {
    }

    fn visit_identifier(&mut self, tree: &Identifier)
        ensures
            final(self).gathered() == Self::meet(old(self).gathered(), Leaf::Identifier(tree@)),
    ;

    fn visit_value(&mut self, tree: &Value)
        ensures
            final(self).gathered() == Self::meet(old(self).gathered(), Leaf::Value(tree@)),
    ;
}

/// A name or a number that occurs in an array address.
pub enum AddressPart {
    Name(Identifier),
    Number(Value),
}

/// The names and numbers of an operand, in order.
pub open spec fn operand_parts(o: SpecOperand) -> Seq<SpecAddressPart>
    decreases o,
{
    match o {
        SpecOperand::Value(v) => seq![SpecAddressPart::Number(v)],
        SpecOperand::LValue(SpecLValue::Scalar(n)) => seq![SpecAddressPart::Name(n)],
        SpecOperand::LValue(SpecLValue::Field(n, f)) => seq![SpecAddressPart::Name(n), SpecAddressPart::Name(f)],
        SpecOperand::LValue(SpecLValue::Array(n, a)) => seq![SpecAddressPart::Name(n)] + operand_parts(*a),
    }
}

pub enum SpecAddressPart {
    Name(Seq<char>),
    Number(u32),
}

impl View for AddressPart {
    type V = SpecAddressPart;

    open spec fn view(&self) -> SpecAddressPart {
        match self {
            AddressPart::Name(n) => SpecAddressPart::Name(n.id_name@),
            AddressPart::Number(v) => SpecAddressPart::Number(v.value),
        }
    }
}

/// Appends the names and numbers of an operand, in order.
pub fn address_parts(tree: &Operand, out: &mut Vec<AddressPart>)
    ensures vec_view(final(out)@) == vec_view(old(out)@) + operand_parts(tree@),
    decreases tree,
{
    let ghost before = vec_view(out@);
    match tree {
        Operand::Value(value) => {
            let part = AddressPart::Number(Value { value: value.value });
            proof { lemma_vec_view_push(out@, part); }
            out.push(part);
        },
        Operand::LValue(LValue::Scalar(name)) => {
            let part = AddressPart::Name(Identifier { id_name: name.id_name.clone() });
            proof { lemma_vec_view_push(out@, part); }
            out.push(part);
        },
        Operand::LValue(LValue::Field(struct_name, field_name)) => {
            let part = AddressPart::Name(Identifier { id_name: struct_name.id_name.clone() });
            proof { lemma_vec_view_push(out@, part); }
            out.push(part);
            let part2 = AddressPart::Name(Identifier { id_name: field_name.id_name.clone() });
            proof { lemma_vec_view_push(out@, part2); }
            out.push(part2);
        },
        Operand::LValue(LValue::Array(array_name, address)) => {
            let part = AddressPart::Name(Identifier { id_name: array_name.id_name.clone() });
            proof { lemma_vec_view_push(out@, part); }
            out.push(part);
            address_parts(address, out);
        },
    }
    assert(vec_view(out@) =~= before + operand_parts(tree@));
}

} // verus!
