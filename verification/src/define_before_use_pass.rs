use vstd::prelude::*;
use crate::basic_grammar::{
    Prog, Snippet, Connections, Statement, Expr, ExprRight, Operand, Initializer, IdList,
    SpecBasicProg, SpecBasicSnippet, SpecBasicStatement, SpecBasicExpr, SpecBasicExprRight,
    SpecBasicOperand,
};
use crate::symbol_table_pass::{name_set, contains_name, insert_name};

verus! {

/// Why a program uses a name it has not defined.
#[derive(Debug, PartialEq)]
pub enum DefineBeforeUseError {
    /// A `static` initializer names something that is already defined.
    AlreadyDefined(String),
    /// An expression uses a name before it is defined.
    UsedBeforeDefinition(String),
    /// A connection names an undefined snippet.
    ConnectedButUndefined(String),
}

pub enum SpecDbuError {
    AlreadyDefined(Seq<char>),
    UsedBeforeDefinition(Seq<char>),
    ConnectedButUndefined(Seq<char>),
}

impl View for DefineBeforeUseError {
    type V = SpecDbuError;

    open spec fn view(&self) -> SpecDbuError {
        match self {
            DefineBeforeUseError::AlreadyDefined(n) => SpecDbuError::AlreadyDefined(n@),
            DefineBeforeUseError::UsedBeforeDefinition(n) => SpecDbuError::UsedBeforeDefinition(n@),
            DefineBeforeUseError::ConnectedButUndefined(n) => SpecDbuError::ConnectedButUndefined(n@),
        }
    }
}

/// The defined names after a step, or why the step fails.
pub type DbuResult = Result<Set<Seq<char>>, SpecDbuError>;

/// A name used as an operand must be defined.
pub open spec fn check_operand(defined: Set<Seq<char>>, o: SpecBasicOperand) -> Option<SpecDbuError> {
    match o {
        SpecBasicOperand::Identifier(n) => if defined.contains(n) {
            None
        } else {
            Some(SpecDbuError::UsedBeforeDefinition(n))
        },
        SpecBasicOperand::Value(_) => None,
    }
}

/// The first operand of `e` (in reading order) that uses an undefined name.
pub open spec fn check_expr(defined: Set<Seq<char>>, e: SpecBasicExpr) -> Option<SpecDbuError> {
    match check_operand(defined, e.op1) {
        Some(err) => Some(err),
        None => match e.expr_right {
            SpecBasicExprRight::BinOp(_, o) => check_operand(defined, o),
            SpecBasicExprRight::Cond(a, b) => match check_operand(defined, a) {
                Some(err) => Some(err),
                None => check_operand(defined, b),
            },
            SpecBasicExprRight::Empty => None,
        },
    }
}

/// A statement defines its target, then its expression is checked.
pub open spec fn dbu_statement(defined: Set<Seq<char>>, s: SpecBasicStatement) -> DbuResult {
    let d = defined.insert(s.target);
    match check_expr(d, s.expr) {
        Some(err) => Err(err),
        None => Ok(d),
    }
}

pub open spec fn dbu_statements(defined: Set<Seq<char>>, ss: Seq<SpecBasicStatement>) -> DbuResult
    decreases ss.len(),
{
    if ss.len() == 0 {
        Ok(defined)
    } else {
        match dbu_statements(defined, ss.drop_last()) {
            Err(err) => Err(err),
            Ok(d) => dbu_statement(d, ss.last()),
        }
    }
}

/// `static` initializers define names that must not be defined yet.
pub open spec fn dbu_initializers(defined: Set<Seq<char>>, inits: Seq<(Seq<char>, u32)>) -> DbuResult
    decreases inits.len(),
{
    if inits.len() == 0 {
        Ok(defined)
    } else {
        match dbu_initializers(defined, inits.drop_last()) {
            Err(err) => Err(err),
            Ok(d) => if d.contains(inits.last().0) {
                Err(SpecDbuError::AlreadyDefined(inits.last().0))
            } else {
                Ok(d.insert(inits.last().0))
            },
        }
    }
}

/// A snippet defines its name and arguments, then its initializers and statements.
pub open spec fn dbu_snippet(defined: Set<Seq<char>>, s: SpecBasicSnippet) -> DbuResult {
    let d = defined.insert(s.name).union(s.arguments.to_set());
    match dbu_initializers(d, s.initializers) {
        Err(err) => Err(err),
        Ok(d2) => dbu_statements(d2, s.statements),
    }
}

pub open spec fn dbu_snippets(defined: Set<Seq<char>>, ss: Seq<SpecBasicSnippet>) -> DbuResult
    decreases ss.len(),
{
    if ss.len() == 0 {
        Ok(defined)
    } else {
        match dbu_snippets(defined, ss.drop_last()) {
            Err(err) => Err(err),
            Ok(d) => dbu_snippet(d, ss.last()),
        }
    }
}

/// Both ends of every connection must be defined.
pub open spec fn dbu_connections(defined: Set<Seq<char>>, cs: Seq<(Seq<char>, Seq<char>)>) -> Option<SpecDbuError>
    decreases cs.len(),
{
    if cs.len() == 0 {
        None
    } else {
        if !defined.contains(cs[0].0) {
            Some(SpecDbuError::ConnectedButUndefined(cs[0].0))
        } else if !defined.contains(cs[0].1) {
            Some(SpecDbuError::ConnectedButUndefined(cs[0].1))
        } else {
            dbu_connections(defined, cs.drop_first())
        }
    }
}

/// The outcome of the pass on a program, from the names defined before it.
pub open spec fn dbu_prog(defined: Set<Seq<char>>, p: SpecBasicProg) -> DbuResult {
    match dbu_snippets(defined, p.snippets) {
        Err(err) => Err(err),
        Ok(d) => match dbu_connections(d, p.connections) {
            Some(err) => Err(err),
            None => Ok(d),
        },
    }
}

/// The outcome of an exec step agrees with the spec step.
pub open spec fn dbu_agrees(r: Result<(), DefineBeforeUseError>, collector: Seq<String>, s: DbuResult) -> bool {
    match r {
        Ok(()) => s == Ok::<Set<Seq<char>>, SpecDbuError>(name_set(collector)),
        Err(e) => s == Err::<Set<Seq<char>>, SpecDbuError>(e@),
    }
}

/// Compiler pass to check that identifiers are defined before being used.
pub struct DefineBeforeUsePass;

impl DefineBeforeUsePass {
    fn check_operand(o: &Operand, collector: &Vec<String>) -> (r: Result<(), DefineBeforeUseError>)
        ensures
            match r {
                Ok(()) => check_operand(name_set(collector@), o@) is None,
                Err(e) => check_operand(name_set(collector@), o@) == Some(e@),
            },
    {
        match o {
            Operand::Identifier(crate::basic_grammar::Identifier::Identifier(n)) => {
                if contains_name(collector, n) {
                    Ok(())
                } else {
                    Err(DefineBeforeUseError::UsedBeforeDefinition(n.clone()))
                }
            },
            Operand::Value(_) => Ok(()),
        }
    }

    /// Checks that the names an expression uses are defined.
    pub fn visit_expr(tree: &Expr, collector: &mut Vec<String>) -> (r: Result<(), DefineBeforeUseError>)
        ensures
            final(collector)@ == old(collector)@,
            match r {
                Ok(()) => check_expr(name_set(old(collector)@), tree@) is None,
                Err(e) => check_expr(name_set(old(collector)@), tree@) == Some(e@),
            },
    {
        let Expr::Expr(op1, expr_right) = tree;
        Self::check_operand(op1, collector)?;
        match expr_right {
            ExprRight::BinOp(_, op2) => Self::check_operand(op2, collector),
            ExprRight::Cond(true_op, false_op) => {
                Self::check_operand(true_op, collector)?;
                Self::check_operand(false_op, collector)
            },
            ExprRight::Empty() => Ok(()),
        }
    }

    /// A statement defines its target; its expression must use defined names only.
    pub fn visit_statement(tree: &Statement, collector: &mut Vec<String>) -> (r: Result<(), DefineBeforeUseError>)
        ensures dbu_agrees(r, final(collector)@, dbu_statement(name_set(old(collector)@), tree@)),
    {
        let Statement::Statement(crate::basic_grammar::Identifier::Identifier(id_string), expr) = tree;
        insert_name(collector, id_string);
        Self::visit_expr(expr, collector)
    }

    /// An initializer defines a name that must not be defined yet.
    pub fn visit_initializer(tree: &Initializer, collector: &mut Vec<String>) -> (r: Result<(), DefineBeforeUseError>)
        ensures
            match r {
                Ok(()) => !name_set(old(collector)@).contains(tree@.0)
                    && name_set(final(collector)@) == name_set(old(collector)@).insert(tree@.0),
                Err(e) => name_set(old(collector)@).contains(tree@.0)
                    && e@ == SpecDbuError::AlreadyDefined(tree@.0),
            },
    {
        let Initializer::Initializer(crate::basic_grammar::Identifier::Identifier(id_string), _) = tree;
        if contains_name(collector, id_string) {
            return Err(DefineBeforeUseError::AlreadyDefined(id_string.clone()));
        }
        insert_name(collector, id_string);
        Ok(())
    }

    /// Arguments are defined.
    pub fn visit_idlist(tree: &IdList, collector: &mut Vec<String>)
        ensures name_set(final(collector)@) == name_set(old(collector)@).union(tree@.to_set()),
    {
        let IdList::IdList(id_vector) = tree;
        let ghost start = name_set(collector@);
        let mut i: usize = 0;
        while i < id_vector.len()
            invariant
                i <= id_vector@.len(),
                tree@ == crate::grammar::vec_view(id_vector@),
                name_set(collector@) == start.union(tree@.subrange(0, i as int).to_set()),
            decreases id_vector@.len() - i,
        {
            let crate::basic_grammar::Identifier::Identifier(n) = &id_vector[i];
            insert_name(collector, n);
            assert(tree@.subrange(0, i + 1).to_set() =~= tree@.subrange(0, i as int).to_set().insert(n@)) by {
                assert(tree@.subrange(0, i + 1) =~= tree@.subrange(0, i as int) + seq![n@]);
                Seq::<Seq<char>>::lemma_to_set_insert_commutes(tree@.subrange(0, i as int), n@);
            }
            i = i + 1;
            assert(name_set(collector@) =~= start.union(tree@.subrange(0, i as int).to_set()));
        }
        assert(tree@.subrange(0, i as int) =~= tree@);
    }

    /// A snippet defines its name and arguments, then its initializers and statements are checked.
    pub fn visit_snippet(tree: &Snippet, collector: &mut Vec<String>) -> (r: Result<(), DefineBeforeUseError>)
        ensures dbu_agrees(r, final(collector)@, dbu_snippet(name_set(old(collector)@), tree@)),
    {
        let Snippet::Snippet(crate::basic_grammar::Identifier::Identifier(name), id_list, initializers, statements) = tree;
        let ghost s = tree@;
        insert_name(collector, name);
        Self::visit_idlist(id_list, collector);
        let crate::basic_grammar::Initializers::Initializers(inits) = initializers;
        let ghost d0 = name_set(collector@);
        let mut i: usize = 0;
        assert(s.initializers.subrange(0, 0) =~= Seq::<(Seq<char>, u32)>::empty());
        while i < inits.len()
            invariant
                i <= inits@.len(),
                s.initializers == crate::grammar::vec_view(inits@),
                s == tree@,
                d0 == name_set(old(collector)@).insert(s.name).union(s.arguments.to_set()),
                dbu_initializers(d0, s.initializers.subrange(0, i as int)) == Ok::<Set<Seq<char>>, SpecDbuError>(name_set(collector@)),
            decreases inits@.len() - i,
        {
            let r = Self::visit_initializer(&inits[i], collector);
            assert(s.initializers.subrange(0, i + 1).drop_last() =~= s.initializers.subrange(0, i as int));
            match r {
                Err(e) => {
                    assert(dbu_initializers(d0, s.initializers) == Err::<Set<Seq<char>>, SpecDbuError>(e@)) by {
                        lemma_initializers_error(d0, s.initializers, (i + 1) as int);
                    }
                    return Err(e);
                },
                Ok(()) => {},
            }
            i = i + 1;
        }
        assert(s.initializers.subrange(0, i as int) =~= s.initializers);
        let crate::basic_grammar::Statements::Statements(stmts) = statements;
        let ghost d1 = name_set(collector@);
        let mut j: usize = 0;
        assert(s.statements.subrange(0, 0) =~= Seq::<SpecBasicStatement>::empty());
        while j < stmts.len()
            invariant
                j <= stmts@.len(),
                s.statements == crate::grammar::vec_view(stmts@),
                s == tree@,
                d0 == name_set(old(collector)@).insert(s.name).union(s.arguments.to_set()),
                dbu_initializers(d0, s.initializers) == Ok::<Set<Seq<char>>, SpecDbuError>(d1),
                dbu_statements(d1, s.statements.subrange(0, j as int)) == Ok::<Set<Seq<char>>, SpecDbuError>(name_set(collector@)),
            decreases stmts@.len() - j,
        {
            let r = Self::visit_statement(&stmts[j], collector);
            assert(s.statements.subrange(0, j + 1).drop_last() =~= s.statements.subrange(0, j as int));
            match r {
                Err(e) => {
                    assert(dbu_statements(d1, s.statements) == Err::<Set<Seq<char>>, SpecDbuError>(e@)) by {
                        lemma_statements_error(d1, s.statements, (j + 1) as int);
                    }
                    return Err(e);
                },
                Ok(()) => {},
            }
            j = j + 1;
        }
        assert(s.statements.subrange(0, j as int) =~= s.statements);
        Ok(())
    }

    /// Both ends of every connection must be defined.
    pub fn visit_connections(tree: &Connections, collector: &mut Vec<String>) -> (r: Result<(), DefineBeforeUseError>)
        ensures
            final(collector)@ == old(collector)@,
            match r {
                Ok(()) => dbu_connections(name_set(old(collector)@), tree@) is None,
                Err(e) => dbu_connections(name_set(old(collector)@), tree@) == Some(e@),
            },
        decreases tree,
    {
        match tree {
            Connections::Empty() => Ok(()),
            Connections::Connections(crate::basic_grammar::Identifier::Identifier(a), crate::basic_grammar::Identifier::Identifier(b), rest) => {
                assert(tree@.drop_first() =~= rest@);
                if !contains_name(collector, a) {
                    return Err(DefineBeforeUseError::ConnectedButUndefined(a.clone()));
                }
                if !contains_name(collector, b) {
                    return Err(DefineBeforeUseError::ConnectedButUndefined(b.clone()));
                }
                Self::visit_connections(rest, collector)
            },
        }
    }

    /// Runs the pass over a program, with `collector` holding the names defined so far.
    pub fn visit_prog(tree: &Prog, collector: &mut Vec<String>) -> (r: Result<(), DefineBeforeUseError>)
        ensures dbu_agrees(r, final(collector)@, dbu_prog(name_set(old(collector)@), tree@)),
    {
        let Prog::Prog(snippets, connections) = tree;
        let crate::basic_grammar::Snippets::Snippets(ss) = snippets;
        let ghost p = tree@;
        let ghost d0 = name_set(collector@);
        let mut i: usize = 0;
        assert(p.snippets.subrange(0, 0) =~= Seq::<SpecBasicSnippet>::empty());
        while i < ss.len()
            invariant
                i <= ss@.len(),
                p.snippets == crate::grammar::vec_view(ss@),
                p == tree@,
                d0 == name_set(old(collector)@),
                dbu_snippets(d0, p.snippets.subrange(0, i as int)) == Ok::<Set<Seq<char>>, SpecDbuError>(name_set(collector@)),
            decreases ss@.len() - i,
        {
            let r = Self::visit_snippet(&ss[i], collector);
            assert(p.snippets.subrange(0, i + 1).drop_last() =~= p.snippets.subrange(0, i as int));
            match r {
                Err(e) => {
                    assert(dbu_snippets(d0, p.snippets) == Err::<Set<Seq<char>>, SpecDbuError>(e@)) by {
                        lemma_snippets_error(d0, p.snippets, (i + 1) as int);
                    }
                    return Err(e);
                },
                Ok(()) => {},
            }
            i = i + 1;
        }
        assert(p.snippets.subrange(0, i as int) =~= p.snippets);
        Self::visit_connections(connections, collector)
    }
}

/// Once a prefix of the initializers fails, so do all of them.
proof fn lemma_initializers_error(d: Set<Seq<char>>, inits: Seq<(Seq<char>, u32)>, k: int)
    requires
        0 <= k <= inits.len(),
        dbu_initializers(d, inits.subrange(0, k)) is Err,
    ensures dbu_initializers(d, inits) == dbu_initializers(d, inits.subrange(0, k)),
    decreases inits.len() - k,
{
    if k < inits.len() {
        assert(inits.subrange(0, k + 1).drop_last() =~= inits.subrange(0, k));
        lemma_initializers_error(d, inits, k + 1);
    } else {
        assert(inits.subrange(0, k) =~= inits);
    }
}

/// Once a prefix of the statements fails, so do all of them.
proof fn lemma_statements_error(d: Set<Seq<char>>, ss: Seq<SpecBasicStatement>, k: int)
    requires
        0 <= k <= ss.len(),
        dbu_statements(d, ss.subrange(0, k)) is Err,
    ensures dbu_statements(d, ss) == dbu_statements(d, ss.subrange(0, k)),
    decreases ss.len() - k,
{
    if k < ss.len() {
        assert(ss.subrange(0, k + 1).drop_last() =~= ss.subrange(0, k));
        lemma_statements_error(d, ss, k + 1);
    } else {
        assert(ss.subrange(0, k) =~= ss);
    }
}

/// Once a prefix of the snippets fails, so do all of them.
proof fn lemma_snippets_error(d: Set<Seq<char>>, ss: Seq<SpecBasicSnippet>, k: int)
    requires
        0 <= k <= ss.len(),
        dbu_snippets(d, ss.subrange(0, k)) is Err,
    ensures dbu_snippets(d, ss) == dbu_snippets(d, ss.subrange(0, k)),
    decreases ss.len() - k,
{
    if k < ss.len() {
        assert(ss.subrange(0, k + 1).drop_last() =~= ss.subrange(0, k));
        lemma_snippets_error(d, ss, k + 1);
    } else {
        assert(ss.subrange(0, k) =~= ss);
    }
}

} // verus!
