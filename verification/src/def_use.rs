use vstd::prelude::*;
use crate::grammar::{
    Statements, IfBlock, IfBlocks, VariableDecls, Globals, Packets, Snippets, Connections, Prog,
    Packet, PacketField, Snippet, Connection, VariableDecl, Statement, Expr, ExprRight, Operand,
    LValue, VarType, VarInfo, TypeQualifier, Identifier, SpecProg, SpecPacket, SpecPacketField,
    SpecSnippet, SpecConnection, SpecVariableDecl, SpecStatement, SpecExpr, SpecExprRight, SpecOperand,
    SpecLValue, SpecVarType, SpecVarInfo, SpecIfBlock, reads_scalar,
};
use crate::symbol_table_pass::{name_set, contains_name, insert_name};

verus! {

// Defined => Declared, but not the other way around.
#[derive(Debug, PartialEq, Eq, Structural, Clone, Copy)]
pub enum VarState {
    Declared,
    Defined,
    Updated,
}

/// A declared variable: its type and how far it has been assigned.
pub struct VariableMetadata {
    var_type: VarType,
    var_state: VarState,
}

pub struct SpecMeta {
    pub var_type: SpecVarType,
    pub var_state: VarState,
}

impl View for VariableMetadata {
    type V = SpecMeta;

    closed spec fn view(&self) -> SpecMeta {
        SpecMeta { var_type: self.var_type@, var_state: self.var_state }
    }
}

/// A copy of a variable type.
pub fn copy_var_type(vt: &VarType) -> (r: VarType)
    ensures r@ == vt@,
{
    let var_info = match &vt.var_info {
        VarInfo::BitArray(w, n) => VarInfo::BitArray(*w, *n),
        VarInfo::Packet(id) => VarInfo::Packet(Identifier { id_name: id.id_name.clone() }),
    };
    VarType { var_info, type_qualifier: vt.type_qualifier }
}

impl VariableMetadata {
    pub fn get_var_type(&self) -> (r: &VarType)
        ensures r@ == self@.var_type,
    {
        &self.var_type
    }

    pub fn get_var_state(&self) -> (r: VarState)
        ensures r == self@.var_state,
    {
        self.var_state
    }
}

// ---------------------------------------------------------------------------------------------
// Tables keyed by paths of names
// ---------------------------------------------------------------------------------------------

pub open spec fn path_view(k: Seq<String>) -> Seq<Seq<char>> {
    k.map_values(|s: String| s@)
}

/// A table from paths of names (snippet and variable, say) to metadata; no path occurs twice.
pub struct MetaTable {
    keys: Vec<Vec<String>>,
    metas: Vec<VariableMetadata>,
}

impl MetaTable {
    pub closed spec fn len(&self) -> nat {
        self.keys@.len()
    }

    pub closed spec fn key_at(&self, i: int) -> Seq<Seq<char>> {
        path_view(self.keys@[i]@)
    }

    pub closed spec fn wf(&self) -> bool {
        &&& self.keys@.len() == self.metas@.len()
        &&& forall|i: int, j: int| 0 <= i < j < self.keys@.len() ==> self.key_at(i) != self.key_at(j)
    }

    pub closed spec fn view(&self) -> Map<Seq<Seq<char>>, SpecMeta> {
        Map::new(
            |k: Seq<Seq<char>>| exists|i: int| 0 <= i < self.keys@.len() && self.key_at(i) == k,
            |k: Seq<Seq<char>>| self.metas@[choose|i: int| 0 <= i < self.keys@.len() && self.key_at(i) == k]@,
        )
    }

    proof fn lemma_lookup(&self, i: int)
        requires self.wf(), 0 <= i < self.keys@.len(),
        ensures self.view().contains_key(self.key_at(i)), self.view()[self.key_at(i)] == self.metas@[i]@,
    {
        let k = self.key_at(i);
        assert(exists|j: int| 0 <= j < self.keys@.len() && self.key_at(j) == k);
        let j = choose|j: int| 0 <= j < self.keys@.len() && self.key_at(j) == k;
        if j != i {
            if j < i {
                assert(self.key_at(j) != self.key_at(i));
            } else {
                assert(self.key_at(i) != self.key_at(j));
            }
        }
    }

    pub fn new() -> (t: MetaTable)
        ensures t.wf(), t.view() == Map::<Seq<Seq<char>>, SpecMeta>::empty(),
    {
        let t = MetaTable { keys: Vec::new(), metas: Vec::new() };
        assert(t.view() =~= Map::<Seq<Seq<char>>, SpecMeta>::empty());
        t
    }

    fn same_path(a: &Vec<String>, b: &Vec<String>) -> (r: bool)
        ensures r == (path_view(a@) == path_view(b@)),
    {
        if a.len() != b.len() {
            assert(path_view(a@).len() != path_view(b@).len());
            return false;
        }
        let mut i: usize = 0;
        while i < a.len()
            invariant
                a@.len() == b@.len(),
                i <= a@.len(),
                forall|j: int| 0 <= j < i ==> a@[j]@ == b@[j]@,
            decreases a@.len() - i,
        {
            if a[i] != b[i] {
                assert(path_view(a@)[i as int] != path_view(b@)[i as int]);
                return false;
            }
            i = i + 1;
        }
        assert(path_view(a@) =~= path_view(b@));
        true
    }

    /// The position of `key` in the table, if it is there.
    pub fn find(&self, key: &Vec<String>) -> (r: Option<usize>)
        requires self.wf(),
        ensures
            match r {
                Some(i) => i < self.len() && self.key_at(i as int) == path_view(key@)
                    && self.view().contains_key(path_view(key@)),
                None => !self.view().contains_key(path_view(key@)),
            },
    {
        let mut i: usize = 0;
        while i < self.keys.len()
            invariant
                self.wf(),
                i <= self.keys@.len(),
                forall|j: int| 0 <= j < i ==> self.key_at(j) != path_view(key@),
            decreases self.keys@.len() - i,
        {
            if Self::same_path(&self.keys[i], key) {
                proof {
                    self.lemma_lookup(i as int);
                }
                return Some(i);
            }
            i = i + 1;
        }
        None
    }

    pub fn meta(&self, i: usize) -> (m: &VariableMetadata)
        requires self.wf(), i < self.len(),
        ensures self.view().contains_key(self.key_at(i as int)), m@ == self.view()[self.key_at(i as int)],
    {
        proof {
            self.lemma_lookup(i as int);
        }
        &self.metas[i]
    }

    /// Adds an entry for a path that is not in the table.
    pub fn insert_new(&mut self, key: Vec<String>, m: VariableMetadata)
        requires old(self).wf(), !old(self).view().contains_key(path_view(key@)),
        ensures final(self).wf(), final(self).view() == old(self).view().insert(path_view(key@), m@),
    {
        let ghost old_t = *self;
        let ghost k = path_view(key@);
        self.keys.push(key);
        self.metas.push(m);
        let ghost n = old_t.keys@.len() as int;
        assert(self.key_at(n) == k);
        assert forall|j: int| 0 <= j < n implies self.key_at(j) == old_t.key_at(j) by {}
        assert forall|j: int| 0 <= j < n implies old_t.key_at(j) != k by {
            if old_t.key_at(j) == k {
                assert(old_t.view().contains_key(k));
            }
        }
        assert forall|a: int, b: int| 0 <= a < b < self.keys@.len() implies self.key_at(a) != self.key_at(b) by {
            if b < n {
                assert(old_t.key_at(a) != old_t.key_at(b));
            } else {
                assert(old_t.key_at(a) != k);
            }
        }
        assert(self.wf());
        assert(self.view() =~= old_t.view().insert(k, m@)) by {
            assert forall|kk: Seq<Seq<char>>| #[trigger] self.view().contains_key(kk) <==> old_t.view().insert(k, m@).contains_key(kk) by {
                if self.view().contains_key(kk) {
                    let j = choose|j: int| 0 <= j < self.keys@.len() && self.key_at(j) == kk;
                    if j < n {
                        assert(old_t.key_at(j) == kk);
                    }
                }
                if old_t.view().contains_key(kk) {
                    let j = choose|j: int| 0 <= j < old_t.keys@.len() && old_t.key_at(j) == kk;
                    assert(self.key_at(j) == kk);
                }
            }
            assert forall|kk: Seq<Seq<char>>| self.view().contains_key(kk) implies #[trigger] self.view()[kk] == old_t.view().insert(k, m@)[kk] by {
                let j = choose|j: int| 0 <= j < self.keys@.len() && self.key_at(j) == kk;
                self.lemma_lookup(j);
                if j < n {
                    old_t.lemma_lookup(j);
                }
            }
        }
    }

    /// The path at position `i`.
    pub fn key(&self, i: usize) -> (k: &Vec<String>)
        requires i < self.len(),
        ensures path_view(k@) == self.key_at(i as int),
    {
        &self.keys[i]
    }

    pub fn size(&self) -> (n: usize)
        ensures n == self.len(),
    {
        self.keys.len()
    }

    /// Maps `key` to `m`, in place of what it mapped to before.
    pub fn upsert(&mut self, key: Vec<String>, m: VariableMetadata)
        requires old(self).wf(),
        ensures final(self).wf(), final(self).view() == old(self).view().insert(path_view(key@), m@),
    {
        match self.find(&key) {
            Some(i) => {
                let ghost old_t = *self;
                let ghost mv = m@;
                proof {
                    old_t.lemma_lookup(i as int);
                }
                self.metas.set(i, m);
                assert forall|j: int| 0 <= j < self.keys@.len() implies self.key_at(j) == old_t.key_at(j) by {}
                assert forall|a: int, b: int| 0 <= a < b < self.keys@.len() implies self.key_at(a) != self.key_at(b) by {
                    assert(old_t.key_at(a) != old_t.key_at(b));
                }
                let ghost k = old_t.key_at(i as int);
                assert(self.view() =~= old_t.view().insert(k, mv)) by {
                    assert forall|kk: Seq<Seq<char>>| #[trigger] self.view().contains_key(kk) <==> old_t.view().insert(k, mv).contains_key(kk) by {
                        if self.view().contains_key(kk) {
                            let j = choose|j: int| 0 <= j < self.keys@.len() && self.key_at(j) == kk;
                            assert(old_t.key_at(j) == kk);
                        }
                        if old_t.view().contains_key(kk) {
                            let j = choose|j: int| 0 <= j < old_t.keys@.len() && old_t.key_at(j) == kk;
                            assert(self.key_at(j) == kk);
                        }
                    }
                    assert forall|kk: Seq<Seq<char>>| self.view().contains_key(kk) implies #[trigger] self.view()[kk] == old_t.view().insert(k, mv)[kk] by {
                        let j = choose|j: int| 0 <= j < self.keys@.len() && self.key_at(j) == kk;
                        self.lemma_lookup(j);
                        old_t.lemma_lookup(j);
                    }
                }
            },
            None => {
                self.insert_new(key, m);
            },
        }
    }

    /// Changes the state of the entry at position `i`.
    pub fn set_state(&mut self, i: usize, state: VarState)
        requires old(self).wf(), i < old(self).len(),
        ensures
            final(self).wf(),
            final(self).view() == old(self).view().insert(old(self).key_at(i as int),
                SpecMeta { var_type: old(self).view()[old(self).key_at(i as int)].var_type, var_state: state }),
    {
        let ghost old_t = *self;
        proof {
            old_t.lemma_lookup(i as int);
        }
        let m = VariableMetadata { var_type: copy_var_type(&self.metas[i].var_type), var_state: state };
        self.metas.set(i, m);
        let ghost k = old_t.key_at(i as int);
        let ghost nm = SpecMeta { var_type: old_t.view()[k].var_type, var_state: state };
        assert forall|j: int| 0 <= j < self.keys@.len() implies self.key_at(j) == old_t.key_at(j) by {}
        assert forall|a: int, b: int| 0 <= a < b < self.keys@.len() implies self.key_at(a) != self.key_at(b) by {
            assert(old_t.key_at(a) != old_t.key_at(b));
        }
        assert(self.wf());
        assert(self.view() =~= old_t.view().insert(k, nm)) by {
            assert forall|kk: Seq<Seq<char>>| #[trigger] self.view().contains_key(kk) <==> old_t.view().insert(k, nm).contains_key(kk) by {
                if self.view().contains_key(kk) {
                    let j = choose|j: int| 0 <= j < self.keys@.len() && self.key_at(j) == kk;
                    assert(old_t.key_at(j) == kk);
                }
                if old_t.view().contains_key(kk) {
                    let j = choose|j: int| 0 <= j < old_t.keys@.len() && old_t.key_at(j) == kk;
                    assert(self.key_at(j) == kk);
                }
            }
            assert forall|kk: Seq<Seq<char>>| self.view().contains_key(kk) implies #[trigger] self.view()[kk] == old_t.view().insert(k, nm)[kk] by {
                let j = choose|j: int| 0 <= j < self.keys@.len() && self.key_at(j) == kk;
                self.lemma_lookup(j);
                old_t.lemma_lookup(j);
            }
        }
    }
}

// ---------------------------------------------------------------------------------------------
// The def-use check
// ---------------------------------------------------------------------------------------------

/// Why a program fails the check; the names say where.
#[derive(Debug, PartialEq)]
pub enum DefUseError {
    /// Two snippets have the name.
    DuplicateSnippet(String),
    /// A variable is declared twice in a snippet (variable, snippet).
    DuplicateVariable(String, String),
    /// A variable has a packet type that is not declared.
    UndeclaredPacket(String),
    /// A global variable is declared twice.
    DuplicateGlobal(String),
    /// Two packets have the name.
    DuplicatePacket(String),
    /// A field is declared twice in a packet (field, packet).
    DuplicateField(String, String),
    /// A packet holds something other than a field.
    NonFieldInPacket(String),
    /// A variable that is not global is declared outside every snippet.
    DeclarationOutsideSnippet(String),
    /// An assigned variable is not declared (variable, snippet).
    UndeclaredVariable(String, String),
    /// A packet has no field of the name (packet, field).
    NoSuchField(String, String),
    /// A field of a variable that is no packet is assigned (variable, field).
    FieldOfNonPacket(String, String),
    /// A packet field is not declared for the snippet (variable, field, snippet).
    UndeclaredField(String, String, String),
    /// A packet field is not a bit array (variable, field).
    FieldNotBitArray(String, String),
    /// A const variable is assigned (variable, snippet).
    UpdatedConst(String, String),
    /// An input variable is assigned (variable, snippet).
    UpdatedInput(String, String),
    /// A variable is assigned a second time (variable, snippet).
    Redefined(String, String),
    /// A persistent variable is assigned a second time.
    UpdatedTwice(String),
    /// A variable is read before it is defined.
    UsedBeforeDefinition(String),
    /// A persistent variable is read after it was assigned.
    UsedAfterUpdate(String),
    /// A connection names a snippet that is not there.
    UndefinedSnippet(String),
    /// A connection names a variable that the snippet does not declare (variable, snippet).
    NonexistentVariable(String, String),
    /// The variable a connection starts from is not an output (variable, snippet).
    NotOutput(String, String),
    /// The variable a connection ends in is not an input (variable, snippet).
    NotInput(String, String),
    /// The two ends of a connection differ in bit width (from snippet, from variable, to snippet, to variable).
    WidthMismatch(String, String, String, String),
    /// The two ends of a connection differ in size (from snippet, from variable, to snippet, to variable).
    SizeMismatch(String, String, String, String),
}

pub enum SpecDefUseError {
    DuplicateSnippet(Seq<char>),
    DuplicateVariable(Seq<char>, Seq<char>),
    UndeclaredPacket(Seq<char>),
    DuplicateGlobal(Seq<char>),
    DuplicatePacket(Seq<char>),
    DuplicateField(Seq<char>, Seq<char>),
    NonFieldInPacket(Seq<char>),
    DeclarationOutsideSnippet(Seq<char>),
    UndeclaredVariable(Seq<char>, Seq<char>),
    NoSuchField(Seq<char>, Seq<char>),
    FieldOfNonPacket(Seq<char>, Seq<char>),
    UndeclaredField(Seq<char>, Seq<char>, Seq<char>),
    FieldNotBitArray(Seq<char>, Seq<char>),
    UpdatedConst(Seq<char>, Seq<char>),
    UpdatedInput(Seq<char>, Seq<char>),
    Redefined(Seq<char>, Seq<char>),
    UpdatedTwice(Seq<char>),
    UsedBeforeDefinition(Seq<char>),
    UsedAfterUpdate(Seq<char>),
    UndefinedSnippet(Seq<char>),
    NonexistentVariable(Seq<char>, Seq<char>),
    NotOutput(Seq<char>, Seq<char>),
    NotInput(Seq<char>, Seq<char>),
    WidthMismatch(Seq<char>, Seq<char>, Seq<char>, Seq<char>),
    SizeMismatch(Seq<char>, Seq<char>, Seq<char>, Seq<char>),
}

impl View for DefUseError {
    type V = SpecDefUseError;

    open spec fn view(&self) -> SpecDefUseError {
        match self {
            DefUseError::DuplicateSnippet(a) => SpecDefUseError::DuplicateSnippet(a@),
            DefUseError::DuplicateVariable(a, b) => SpecDefUseError::DuplicateVariable(a@, b@),
            DefUseError::UndeclaredPacket(a) => SpecDefUseError::UndeclaredPacket(a@),
            DefUseError::DuplicateGlobal(a) => SpecDefUseError::DuplicateGlobal(a@),
            DefUseError::DuplicatePacket(a) => SpecDefUseError::DuplicatePacket(a@),
            DefUseError::DuplicateField(a, b) => SpecDefUseError::DuplicateField(a@, b@),
            DefUseError::NonFieldInPacket(a) => SpecDefUseError::NonFieldInPacket(a@),
            DefUseError::DeclarationOutsideSnippet(a) => SpecDefUseError::DeclarationOutsideSnippet(a@),
            DefUseError::UndeclaredVariable(a, b) => SpecDefUseError::UndeclaredVariable(a@, b@),
            DefUseError::NoSuchField(a, b) => SpecDefUseError::NoSuchField(a@, b@),
            DefUseError::FieldOfNonPacket(a, b) => SpecDefUseError::FieldOfNonPacket(a@, b@),
            DefUseError::UndeclaredField(a, b, c) => SpecDefUseError::UndeclaredField(a@, b@, c@),
            DefUseError::FieldNotBitArray(a, b) => SpecDefUseError::FieldNotBitArray(a@, b@),
            DefUseError::UpdatedConst(a, b) => SpecDefUseError::UpdatedConst(a@, b@),
            DefUseError::UpdatedInput(a, b) => SpecDefUseError::UpdatedInput(a@, b@),
            DefUseError::Redefined(a, b) => SpecDefUseError::Redefined(a@, b@),
            DefUseError::UpdatedTwice(a) => SpecDefUseError::UpdatedTwice(a@),
            DefUseError::UsedBeforeDefinition(a) => SpecDefUseError::UsedBeforeDefinition(a@),
            DefUseError::UsedAfterUpdate(a) => SpecDefUseError::UsedAfterUpdate(a@),
            DefUseError::UndefinedSnippet(a) => SpecDefUseError::UndefinedSnippet(a@),
            DefUseError::NonexistentVariable(a, b) => SpecDefUseError::NonexistentVariable(a@, b@),
            DefUseError::NotOutput(a, b) => SpecDefUseError::NotOutput(a@, b@),
            DefUseError::NotInput(a, b) => SpecDefUseError::NotInput(a@, b@),
            DefUseError::WidthMismatch(a, b, c, d) => SpecDefUseError::WidthMismatch(a@, b@, c@, d@),
            DefUseError::SizeMismatch(a, b, c, d) => SpecDefUseError::SizeMismatch(a@, b@, c@, d@),
        }
    }
}

/// The abstract state of the check: the snippet and the packet being visited, the variables
/// of each snippet (by snippet and name), the global variables, the fields of each packet (by
/// packet and field), the packet fields of each snippet's packet variables (by snippet,
/// variable and field), and the names of the snippets and packets seen.
#[verifier::ext_equal]
pub struct SpecDefUse {
    pub current_snippet: Seq<char>,
    pub current_packet: Seq<char>,
    pub symbols: Map<Seq<Seq<char>>, SpecMeta>,
    pub globals: Map<Seq<Seq<char>>, SpecMeta>,
    pub packets: Map<Seq<Seq<char>>, SpecMeta>,
    pub fields: Map<Seq<Seq<char>>, SpecMeta>,
    pub snippet_set: Set<Seq<char>>,
    pub packet_set: Set<Seq<char>>,
}

/// The path of a name inside a snippet or a packet.
pub open spec fn pair_key(a: Seq<char>, b: Seq<char>) -> Seq<Seq<char>> {
    seq![a, b]
}

pub open spec fn initial_state() -> SpecDefUse {
    SpecDefUse {
        current_snippet: Seq::empty(),
        current_packet: Seq::empty(),
        symbols: Map::empty(),
        globals: Map::empty(),
        packets: Map::empty(),
        fields: Map::empty(),
        snippet_set: Set::empty(),
        packet_set: Set::empty(),
    }
}

/// Whether a variable can be read: it is global, or declared in the current snippet and
/// defined; `Err` for a persistent variable that was already updated.
pub open spec fn defined_state(s: SpecDefUse, id: Seq<char>) -> Result<bool, SpecDefUseError> {
    if s.globals.contains_key(seq![id]) {
        Ok(true)
    } else if !s.symbols.contains_key(seq![s.current_snippet, id]) {
        Ok(false)
    } else {
        match s.symbols[seq![s.current_snippet, id]].var_state {
            VarState::Declared => Ok(false),
            VarState::Defined => Ok(true),
            VarState::Updated => Err(SpecDefUseError::UsedAfterUpdate(id)),
        }
    }
}

/// The check of one operand of an expression: scalars must be defined.
pub open spec fn check_operand(s: SpecDefUse, o: SpecOperand) -> Result<(), SpecDefUseError> {
    match o {
        SpecOperand::LValue(SpecLValue::Scalar(id)) => match defined_state(s, id) {
            Ok(true) => Ok(()),
            Ok(false) => Err(SpecDefUseError::UsedBeforeDefinition(id)),
            Err(e) => Err(e),
        },
        _ => Ok(()),
    }
}

pub open spec fn check_expr(s: SpecDefUse, e: SpecExpr) -> Result<(), SpecDefUseError> {
    match check_operand(s, e.op1) {
        Err(err) => Err(err),
        Ok(_) => match e.expr_right {
            SpecExprRight::BinOp(_, op2) => check_operand(s, op2),
            SpecExprRight::Cond(t, f) => match check_operand(s, t) {
                Err(err) => Err(err),
                Ok(_) => check_operand(s, f),
            },
            SpecExprRight::Empty => Ok(()),
        },
    }
}

pub open spec fn with_state(m: SpecMeta, st: VarState) -> SpecMeta {
    SpecMeta { var_type: m.var_type, var_state: st }
}

/// An assignment to a packet field `id.f` in the current snippet.
pub open spec fn assign_field(s: SpecDefUse, id: Seq<char>, f: Seq<char>) -> Result<SpecDefUse, SpecDefUseError> {
    let cs = s.current_snippet;
    let packet_check: Result<(), SpecDefUseError> = if !s.symbols.contains_key(seq![cs, id]) {
        Err(SpecDefUseError::UndeclaredVariable(id, cs))
    } else if s.symbols[seq![cs, id]].var_state == VarState::Declared {
        match s.symbols[seq![cs, id]].var_type.var_info {
            SpecVarInfo::Packet(p) => if s.packets.contains_key(seq![p, f]) { Ok(()) } else { Err(SpecDefUseError::NoSuchField(p, f)) },
            SpecVarInfo::BitArray(_, _) => Err(SpecDefUseError::FieldOfNonPacket(id, f)),
        }
    } else {
        Ok(())
    };
    let key = seq![cs, id, f];
    match packet_check {
        Err(e) => Err(e),
        Ok(_) => if !s.fields.contains_key(key) {
            Err(SpecDefUseError::UndeclaredField(id, f, cs))
        } else {
            let m = s.fields[key];
            match m.var_state {
                VarState::Declared => match m.var_type.var_info {
                    SpecVarInfo::BitArray(_, _) => Ok(SpecDefUse { fields: s.fields.insert(key, with_state(m, VarState::Defined)), ..s }),
                    SpecVarInfo::Packet(_) => Err(SpecDefUseError::FieldNotBitArray(id, f)),
                },
                VarState::Defined => Ok(SpecDefUse { fields: s.fields.insert(key, with_state(m, VarState::Updated)), ..s }),
                VarState::Updated => Ok(s),
            }
        },
    }
}

/// An assignment to a variable `id` in the current snippet.
pub open spec fn assign_var(s: SpecDefUse, id: Seq<char>) -> Result<SpecDefUse, SpecDefUseError> {
    let cs = s.current_snippet;
    let key = seq![cs, id];
    if !s.symbols.contains_key(key) {
        Err(SpecDefUseError::UndeclaredVariable(id, cs))
    } else {
        let m = s.symbols[key];
        match m.var_state {
            VarState::Defined => match m.var_type.type_qualifier {
                TypeQualifier::Persistent => Ok(SpecDefUse { symbols: s.symbols.insert(key, with_state(m, VarState::Updated)), ..s }),
                TypeQualifier::Const => Err(SpecDefUseError::UpdatedConst(id, cs)),
                TypeQualifier::Input => Err(SpecDefUseError::UpdatedInput(id, cs)),
                _ => Err(SpecDefUseError::Redefined(id, cs)),
            },
            VarState::Updated => Err(SpecDefUseError::UpdatedTwice(id)),
            VarState::Declared => Ok(SpecDefUse { symbols: s.symbols.insert(key, with_state(m, VarState::Defined)), ..s }),
        }
    }
}

/// A name can be read in the current snippet: it is a global, or a variable of the snippet that
/// has been given a value and not updated since.
pub open spec fn readable(s: SpecDefUse, n: Seq<char>) -> bool {
    ||| s.globals.contains_key(seq![n])
    ||| (s.symbols.contains_key(seq![s.current_snippet, n]) && s.symbols[seq![s.current_snippet, n]].var_state == VarState::Defined)
}

/// The expression check accepts an expression only if every scalar it reads (first operand,
/// second operand of a binary operation, either branch of a ternary) is readable; a name it
/// reports as used before definition is one the expression reads, neither a global nor a
/// snippet variable with a value; and a first operand that is neither makes the check report
/// exactly that name.
pub proof fn lemma_check_expr_reads(s: SpecDefUse, e: SpecExpr)
    ensures
        check_expr(s, e) is Ok ==> forall|n: Seq<char>| #[trigger] reads_scalar(e, n) ==> readable(s, n),
        forall|n: Seq<char>| check_expr(s, e) == Err::<(), SpecDefUseError>(SpecDefUseError::UsedBeforeDefinition(n))
            ==> #[trigger] reads_scalar(e, n) && !readable(s, n) && !s.globals.contains_key(seq![n]),
        forall|n: Seq<char>| e.op1 == SpecOperand::LValue(SpecLValue::Scalar(n)) && !s.globals.contains_key(seq![n])
            && (!s.symbols.contains_key(seq![s.current_snippet, n]) || s.symbols[seq![s.current_snippet, n]].var_state == VarState::Declared)
            ==> #[trigger] check_expr(s, e) == Err::<(), SpecDefUseError>(SpecDefUseError::UsedBeforeDefinition(n)),
{
    assert forall|n: Seq<char>| check_expr(s, e) is Ok && #[trigger] reads_scalar(e, n) implies readable(s, n) by {
        let x = SpecOperand::LValue(SpecLValue::Scalar(n));
        if e.op1 == x {
            assert(check_operand(s, x) is Ok);
        } else {
            match e.expr_right {
                SpecExprRight::BinOp(_, o) => {
                    assert(check_operand(s, o) is Ok);
                },
                SpecExprRight::Cond(t, f) => {
                    assert(check_operand(s, t) is Ok && check_operand(s, f) is Ok);
                },
                SpecExprRight::Empty => {},
            }
        }
    }
    assert forall|n: Seq<char>| check_expr(s, e) == Err::<(), SpecDefUseError>(SpecDefUseError::UsedBeforeDefinition(n))
        implies #[trigger] reads_scalar(e, n) && !readable(s, n) && !s.globals.contains_key(seq![n]) by {
        let err = Err::<(), SpecDefUseError>(SpecDefUseError::UsedBeforeDefinition(n));
        if check_operand(s, e.op1) == err {
            assert(e.op1 == SpecOperand::LValue(SpecLValue::Scalar(n)));
        } else {
            match e.expr_right {
                SpecExprRight::BinOp(op, o) => {
                    assert(check_operand(s, o) == err);
                    assert(o == SpecOperand::LValue(SpecLValue::Scalar(n)));
                    assert(e.expr_right == SpecExprRight::BinOp(e.expr_right->BinOp_0, o));
                },
                SpecExprRight::Cond(t, f) => {
                    if check_operand(s, t) == err {
                        assert(t == SpecOperand::LValue(SpecLValue::Scalar(n)));
                    } else {
                        assert(check_operand(s, f) == err);
                        assert(f == SpecOperand::LValue(SpecLValue::Scalar(n)));
                    }
                },
                SpecExprRight::Empty => {},
            }
        }
    }
}

/// A statement is accepted only if every scalar its expression reads is readable.
pub proof fn lemma_statement_reads_readable(s: SpecDefUse, st: SpecStatement)
    ensures
        visit_statement_spec(s, st) is Ok ==> forall|n: Seq<char>| #[trigger] reads_scalar(st.expr, n) ==> readable(s, n),
{
    lemma_check_expr_reads(s, st.expr);
}

/// A statement: its expression is checked first, then its target is assigned.
pub open spec fn visit_statement_spec(s: SpecDefUse, st: SpecStatement) -> Result<SpecDefUse, SpecDefUseError> {
    match check_expr(s, st.expr) {
        Err(e) => Err(e),
        Ok(_) => match st.lvalue {
            SpecLValue::Field(id, f) => if f.len() != 0 { assign_field(s, id, f) } else { assign_var(s, id) },
            SpecLValue::Scalar(id) => assign_var(s, id),
            SpecLValue::Array(id, _) => assign_var(s, id),
        },
    }
}

/// The steps applied in order, stopping at the first error.
pub open spec fn fold_steps<A>(s: SpecDefUse, xs: Seq<A>, step: spec_fn(SpecDefUse, A) -> Result<SpecDefUse, SpecDefUseError>)
    -> Result<SpecDefUse, SpecDefUseError>
    decreases xs.len(),
{
    if xs.len() == 0 {
        Ok(s)
    } else {
        match fold_steps(s, xs.drop_last(), step) {
            Err(e) => Err(e),
            Ok(s1) => step(s1, xs.last()),
        }
    }
}

/// The checks applied in order, stopping at the first error.
pub open spec fn fold_checks<A>(xs: Seq<A>, check: spec_fn(A) -> Result<(), SpecDefUseError>) -> Result<(), SpecDefUseError>
    decreases xs.len(),
{
    if xs.len() == 0 {
        Ok(())
    } else {
        match fold_checks(xs.drop_last(), check) {
            Err(e) => Err(e),
            Ok(_) => check(xs.last()),
        }
    }
}

proof fn lemma_fold_steps_next<A>(s: SpecDefUse, xs: Seq<A>, step: spec_fn(SpecDefUse, A) -> Result<SpecDefUse, SpecDefUseError>, i: int)
    requires 0 <= i < xs.len(),
    ensures
        fold_steps(s, xs.subrange(0, i + 1), step) == (match fold_steps(s, xs.subrange(0, i), step) {
            Err(e) => Err(e),
            Ok(s1) => step(s1, xs[i]),
        }),
{
    assert(xs.subrange(0, i + 1).drop_last() =~= xs.subrange(0, i));
}

proof fn lemma_fold_steps_err<A>(s: SpecDefUse, xs: Seq<A>, step: spec_fn(SpecDefUse, A) -> Result<SpecDefUse, SpecDefUseError>, i: int)
    requires 0 <= i <= xs.len(), fold_steps(s, xs.subrange(0, i), step) is Err,
    ensures fold_steps(s, xs, step) == fold_steps(s, xs.subrange(0, i), step),
    decreases xs.len() - i,
{
    if i == xs.len() {
        assert(xs.subrange(0, i) =~= xs);
    } else {
        lemma_fold_steps_next(s, xs, step, i);
        lemma_fold_steps_err(s, xs, step, i + 1);
    }
}

proof fn lemma_fold_checks_next<A>(xs: Seq<A>, check: spec_fn(A) -> Result<(), SpecDefUseError>, i: int)
    requires 0 <= i < xs.len(),
    ensures
        fold_checks(xs.subrange(0, i + 1), check) == (match fold_checks(xs.subrange(0, i), check) {
            Err(e) => Err(e),
            Ok(_) => check(xs[i]),
        }),
{
    assert(xs.subrange(0, i + 1).drop_last() =~= xs.subrange(0, i));
}

proof fn lemma_fold_checks_err<A>(xs: Seq<A>, check: spec_fn(A) -> Result<(), SpecDefUseError>, i: int)
    requires 0 <= i <= xs.len(), fold_checks(xs.subrange(0, i), check) is Err,
    ensures fold_checks(xs, check) == fold_checks(xs.subrange(0, i), check),
    decreases xs.len() - i,
{
    if i == xs.len() {
        assert(xs.subrange(0, i) =~= xs);
    } else {
        lemma_fold_checks_next(xs, check, i);
        lemma_fold_checks_err(xs, check, i + 1);
    }
}

/// The state a variable starts in: inputs, constants and persistent variables are defined
/// by their declaration.
pub open spec fn initial_var_state(tq: TypeQualifier) -> VarState {
    match tq {
        TypeQualifier::Input | TypeQualifier::Const | TypeQualifier::Persistent => VarState::Defined,
        _ => VarState::Declared,
    }
}

/// Whether `k` names a field of variable `id` of snippet `cs` that packet `p` declares.
pub open spec fn is_copy_key(packets: Map<Seq<Seq<char>>, SpecMeta>, cs: Seq<char>, id: Seq<char>, p: Seq<char>,
    k: Seq<Seq<char>>) -> bool
{
    k.len() == 3 && k[0] == cs && k[1] == id && packets.contains_key(seq![p, k[2]])
}

/// `fields` with the fields of packet `p`, undefined, for variable `id` of snippet `cs`.
pub open spec fn with_packet_fields(fields: Map<Seq<Seq<char>>, SpecMeta>, packets: Map<Seq<Seq<char>>, SpecMeta>,
    cs: Seq<char>, id: Seq<char>, p: Seq<char>) -> Map<Seq<Seq<char>>, SpecMeta>
{
    Map::new(
        |k: Seq<Seq<char>>| fields.contains_key(k) || is_copy_key(packets, cs, id, p, k),
        |k: Seq<Seq<char>>| if is_copy_key(packets, cs, id, p, k) { with_state(packets[seq![p, k[2]]], VarState::Declared) } else { fields[k] },
    )
}

/// A declaration: a global variable, or a variable of the current snippet (with the fields of
/// its packet type, where it has one).
pub open spec fn visit_variable_decl_spec(s: SpecDefUse, d: SpecVariableDecl) -> Result<SpecDefUse, SpecDefUseError> {
    let id = d.identifier;
    let cs = s.current_snippet;
    if d.var_type.type_qualifier != TypeQualifier::Global {
        if !s.snippet_set.contains(cs) {
            Err(SpecDefUseError::DeclarationOutsideSnippet(id))
        } else if s.symbols.contains_key(seq![cs, id]) {
            Err(SpecDefUseError::DuplicateVariable(id, cs))
        } else {
            let s1 = SpecDefUse {
                symbols: s.symbols.insert(seq![cs, id], SpecMeta { var_type: d.var_type, var_state: initial_var_state(d.var_type.type_qualifier) }),
                ..s
            };
            match d.var_type.var_info {
                SpecVarInfo::Packet(p) => if s.packet_set.contains(p) {
                    Ok(SpecDefUse { fields: with_packet_fields(s1.fields, s1.packets, cs, id, p), ..s1 })
                } else {
                    Err(SpecDefUseError::UndeclaredPacket(p))
                },
                SpecVarInfo::BitArray(_, _) => Ok(s1),
            }
        }
    } else if s.globals.contains_key(seq![id]) {
        Err(SpecDefUseError::DuplicateGlobal(id))
    } else {
        Ok(SpecDefUse { globals: s.globals.insert(seq![id], SpecMeta { var_type: d.var_type, var_state: VarState::Defined }), ..s })
    }
}

pub open spec fn fold_decls(s: SpecDefUse, ds: Seq<SpecVariableDecl>) -> Result<SpecDefUse, SpecDefUseError> {
    fold_steps(s, ds, |s1: SpecDefUse, x: SpecVariableDecl| visit_variable_decl_spec(s1, x))
}

/// A field of the current packet.
pub open spec fn visit_packet_field_spec(s: SpecDefUse, f: SpecPacketField) -> Result<SpecDefUse, SpecDefUseError> {
    let key = seq![s.current_packet, f.identifier];
    if f.var_type.type_qualifier == TypeQualifier::Field {
        if s.packets.contains_key(key) {
            Err(SpecDefUseError::DuplicateField(f.identifier, s.current_packet))
        } else {
            Ok(SpecDefUse { packets: s.packets.insert(key, SpecMeta { var_type: f.var_type, var_state: VarState::Declared }), ..s })
        }
    } else {
        Err(SpecDefUseError::NonFieldInPacket(f.identifier))
    }
}

pub open spec fn fold_fields(s: SpecDefUse, fs: Seq<SpecPacketField>) -> Result<SpecDefUse, SpecDefUseError> {
    fold_steps(s, fs, |s1: SpecDefUse, x: SpecPacketField| visit_packet_field_spec(s1, x))
}

pub open spec fn visit_packet_spec(s: SpecDefUse, p: SpecPacket) -> Result<SpecDefUse, SpecDefUseError> {
    if s.packet_set.contains(p.packet_id) {
        Err(SpecDefUseError::DuplicatePacket(p.packet_id))
    } else {
        fold_fields(SpecDefUse { current_packet: p.packet_id, packet_set: s.packet_set.insert(p.packet_id), ..s }, p.packet_fields)
    }
}

pub open spec fn fold_packets(s: SpecDefUse, ps: Seq<SpecPacket>) -> Result<SpecDefUse, SpecDefUseError> {
    fold_steps(s, ps, |s1: SpecDefUse, x: SpecPacket| visit_packet_spec(s1, x))
}

pub open spec fn fold_statements(s: SpecDefUse, ss: Seq<SpecStatement>) -> Result<SpecDefUse, SpecDefUseError> {
    fold_steps(s, ss, |s1: SpecDefUse, x: SpecStatement| visit_statement_spec(s1, x))
}

/// A block: its statements, then its condition.
pub open spec fn visit_ifblock_spec(s: SpecDefUse, b: SpecIfBlock) -> Result<SpecDefUse, SpecDefUseError> {
    match fold_statements(s, b.statements) {
        Err(e) => Err(e),
        Ok(s1) => match check_expr(s1, b.condition) {
            Err(e) => Err(e),
            Ok(_) => Ok(s1),
        },
    }
}

pub open spec fn fold_ifblocks(s: SpecDefUse, bs: Seq<SpecIfBlock>) -> Result<SpecDefUse, SpecDefUseError> {
    fold_steps(s, bs, |s1: SpecDefUse, x: SpecIfBlock| visit_ifblock_spec(s1, x))
}

/// A snippet: its declarations, then its blocks.
pub open spec fn visit_snippet_spec(s: SpecDefUse, sn: SpecSnippet) -> Result<SpecDefUse, SpecDefUseError> {
    if s.snippet_set.contains(sn.snippet_id) {
        Err(SpecDefUseError::DuplicateSnippet(sn.snippet_id))
    } else {
        match fold_decls(SpecDefUse { current_snippet: sn.snippet_id, snippet_set: s.snippet_set.insert(sn.snippet_id), ..s },
            sn.variable_decls) {
            Err(e) => Err(e),
            Ok(s1) => fold_ifblocks(s1, sn.ifblocks),
        }
    }
}

pub open spec fn fold_snippets(s: SpecDefUse, ss: Seq<SpecSnippet>) -> Result<SpecDefUse, SpecDefUseError> {
    fold_steps(s, ss, |s1: SpecDefUse, x: SpecSnippet| visit_snippet_spec(s1, x))
}

/// The bit width and size of a variable; packets count as zero.
pub open spec fn width_and_size(vi: SpecVarInfo) -> (u32, u32) {
    match vi {
        SpecVarInfo::BitArray(w, n) => (w, n),
        SpecVarInfo::Packet(_) => (0, 0),
    }
}

/// One pair of a connection: an output of the first snippet to an input of the second, of the
/// same width and size.
pub open spec fn check_pair(s: SpecDefUse, from: Seq<char>, to: Seq<char>, fv: Seq<char>, tv: Seq<char>) -> Result<(), SpecDefUseError> {
    if !s.symbols.contains_key(seq![from, fv]) {
        Err(SpecDefUseError::NonexistentVariable(fv, from))
    } else if s.symbols[seq![from, fv]].var_type.type_qualifier != TypeQualifier::Output {
        Err(SpecDefUseError::NotOutput(fv, from))
    } else if !s.symbols.contains_key(seq![to, tv]) {
        Err(SpecDefUseError::NonexistentVariable(tv, to))
    } else if s.symbols[seq![to, tv]].var_type.type_qualifier != TypeQualifier::Input {
        Err(SpecDefUseError::NotInput(tv, to))
    } else if width_and_size(s.symbols[seq![to, tv]].var_type.var_info).0 != width_and_size(s.symbols[seq![from, fv]].var_type.var_info).0 {
        Err(SpecDefUseError::WidthMismatch(from, fv, to, tv))
    } else if width_and_size(s.symbols[seq![to, tv]].var_type.var_info).1 != width_and_size(s.symbols[seq![from, fv]].var_type.var_info).1 {
        Err(SpecDefUseError::SizeMismatch(from, fv, to, tv))
    } else {
        Ok(())
    }
}

pub open spec fn check_pairs(s: SpecDefUse, from: Seq<char>, to: Seq<char>, ps: Seq<(Seq<char>, Seq<char>)>) -> Result<(), SpecDefUseError> {
    fold_checks(ps, |pr: (Seq<char>, Seq<char>)| check_pair(s, from, to, pr.0, pr.1))
}

/// A connection: both snippets are there, and every pair connects an output to an input.
pub open spec fn check_connection(s: SpecDefUse, c: SpecConnection) -> Result<(), SpecDefUseError> {
    if !s.snippet_set.contains(c.from_snippet) {
        Err(SpecDefUseError::UndefinedSnippet(c.from_snippet))
    } else if !s.snippet_set.contains(c.to_snippet) {
        Err(SpecDefUseError::UndefinedSnippet(c.to_snippet))
    } else {
        check_pairs(s, c.from_snippet, c.to_snippet, c.variable_pairs)
    }
}

pub open spec fn check_connections(s: SpecDefUse, cs: Seq<SpecConnection>) -> Result<(), SpecDefUseError> {
    fold_checks(cs, |c: SpecConnection| check_connection(s, c))
}

/// The whole check: the globals, the packets, the snippets, then the connections.
pub open spec fn visit_prog_spec(s: SpecDefUse, p: SpecProg) -> Result<SpecDefUse, SpecDefUseError> {
    match fold_decls(s, p.globals) {
        Err(e) => Err(e),
        Ok(s1) => match fold_packets(s1, p.packets) {
            Err(e) => Err(e),
            Ok(s2) => match fold_snippets(s2, p.snippets) {
                Err(e) => Err(e),
                Ok(s3) => match check_connections(s3, p.connections) {
                    Err(e) => Err(e),
                    Ok(_) => Ok(s3),
                },
            },
        },
    }
}

// ---------------------------------------------------------------------------------------------
// The checker
// ---------------------------------------------------------------------------------------------

/// Checks that variables are declared before they are assigned and defined before they are
/// read, and that connections join outputs to inputs of the same shape.
pub struct DefUse {
    current_snippet: String,
    current_packet: String,
    symbol_table: MetaTable,
    global_table: MetaTable,
    packet_table: MetaTable,
    field_table: MetaTable,
    snippet_set: Vec<String>,
    packet_set: Vec<String>,
}

impl View for DefUse {
    type V = SpecDefUse;

    closed spec fn view(&self) -> SpecDefUse {
        SpecDefUse {
            current_snippet: self.current_snippet@,
            current_packet: self.current_packet@,
            symbols: self.symbol_table.view(),
            globals: self.global_table.view(),
            packets: self.packet_table.view(),
            fields: self.field_table.view(),
            snippet_set: name_set(self.snippet_set@),
            packet_set: name_set(self.packet_set@),
        }
    }
}

fn path1(a: &String) -> (v: Vec<String>)
    ensures path_view(v@) == seq![a@],
{
    let mut v: Vec<String> = Vec::new();
    v.push(a.clone());
    assert(path_view(v@) =~= seq![a@]);
    v
}

fn path2(a: &String, b: &String) -> (v: Vec<String>)
    ensures path_view(v@) == seq![a@, b@],
{
    let mut v: Vec<String> = Vec::new();
    v.push(a.clone());
    v.push(b.clone());
    assert(path_view(v@) =~= seq![a@, b@]);
    v
}

fn path3(a: &String, b: &String, c: &String) -> (v: Vec<String>)
    ensures path_view(v@) == seq![a@, b@, c@],
{
    let mut v: Vec<String> = Vec::new();
    v.push(a.clone());
    v.push(b.clone());
    v.push(c.clone());
    assert(path_view(v@) =~= seq![a@, b@, c@]);
    v
}


impl DefUse {
    /// The tables are consistent.
    pub closed spec fn wf(&self) -> bool {
        &&& self.symbol_table.wf()
        &&& self.global_table.wf()
        &&& self.packet_table.wf()
        &&& self.field_table.wf()
    }

    /// A checker that has seen nothing.
    pub fn new() -> (d: DefUse)
        ensures d.wf(), d@ == initial_state(),
    {
        let d = DefUse {
            current_snippet: String::new(),
            current_packet: String::new(),
            symbol_table: MetaTable::new(),
            global_table: MetaTable::new(),
            packet_table: MetaTable::new(),
            field_table: MetaTable::new(),
            snippet_set: Vec::new(),
            packet_set: Vec::new(),
        };
        assert(name_set(d.snippet_set@) =~= Set::<Seq<char>>::empty());
        assert(name_set(d.packet_set@) =~= Set::<Seq<char>>::empty());
        d
    }

    fn defined_state_of(&self, id: &String) -> (r: Result<bool, DefUseError>)
        requires self.wf(),
        ensures
            match r {
                Ok(b) => defined_state(self@, id@) == Ok::<bool, SpecDefUseError>(b),
                Err(e) => defined_state(self@, id@) == Err::<bool, SpecDefUseError>(e@),
            },
    {
        if self.global_table.find(&path1(id)).is_some() {
            return Ok(true);
        }
        match self.symbol_table.find(&path2(&self.current_snippet, id)) {
            None => Ok(false),
            Some(i) => match self.symbol_table.meta(i).var_state {
                VarState::Declared => Ok(false),
                VarState::Defined => Ok(true),
                VarState::Updated => Err(DefUseError::UsedAfterUpdate(id.clone())),
            },
        }
    }

    /// Whether `id_name` can be read in the current snippet: it is global, or declared there
    /// and defined. A persistent variable that was updated is not asked about.
    pub fn is_defined(&self, id_name: &str) -> (b: bool)
        requires
            self.wf(),
            defined_state(self@, id_name@) is Ok,
        ensures
            defined_state(self@, id_name@) == Ok::<bool, SpecDefUseError>(b),
    {
        let mut id = String::new();
        id.append(id_name);
        match self.defined_state_of(&id) {
            Ok(b) => b,
            Err(_) => false,
        }
    }

    fn check_operand(&self, o: &Operand) -> (r: Result<(), DefUseError>)
        requires self.wf(),
        ensures
            match r {
                Ok(_) => check_operand(self@, o@) is Ok,
                Err(e) => check_operand(self@, o@) == Err::<(), SpecDefUseError>(e@),
            },
    {
        match o {
            Operand::LValue(LValue::Scalar(id)) => match self.defined_state_of(&id.id_name) {
                Ok(true) => Ok(()),
                Ok(false) => Err(DefUseError::UsedBeforeDefinition(id.id_name.clone())),
                Err(e) => Err(e),
            },
            _ => Ok(()),
        }
    }

    /// Checks that the scalars an expression reads are defined.
    pub fn visit_expr(&self, tree: &Expr) -> (r: Result<(), DefUseError>)
        requires self.wf(),
        ensures
            match r {
                Ok(_) => check_expr(self@, tree@) is Ok,
                Err(e) => check_expr(self@, tree@) == Err::<(), SpecDefUseError>(e@),
            },
    {
        self.check_operand(&tree.op1)?;
        match &tree.expr_right {
            ExprRight::BinOp(_, op2) => self.check_operand(op2),
            ExprRight::Cond(t, f) => {
                self.check_operand(t)?;
                self.check_operand(f)
            },
            ExprRight::Empty() => Ok(()),
        }
    }

    fn assign_var(&mut self, id: &String) -> (r: Result<(), DefUseError>)
        requires old(self).wf(),
        ensures
            final(self).wf(),
            match r {
                Ok(_) => assign_var(old(self)@, id@) == Ok::<SpecDefUse, SpecDefUseError>(final(self)@),
                Err(e) => assign_var(old(self)@, id@) == Err::<SpecDefUse, SpecDefUseError>(e@),
            },
    {
        let key = path2(&self.current_snippet, id);
        match self.symbol_table.find(&key) {
            None => Err(DefUseError::UndeclaredVariable(id.clone(), self.current_snippet.clone())),
            Some(i) => {
                let m = self.symbol_table.meta(i);
                match m.var_state {
                    VarState::Defined => match m.var_type.type_qualifier {
                        TypeQualifier::Persistent => {
                            self.symbol_table.set_state(i, VarState::Updated);
                            Ok(())
                        },
                        TypeQualifier::Const => Err(DefUseError::UpdatedConst(id.clone(), self.current_snippet.clone())),
                        TypeQualifier::Input => Err(DefUseError::UpdatedInput(id.clone(), self.current_snippet.clone())),
                        _ => Err(DefUseError::Redefined(id.clone(), self.current_snippet.clone())),
                    },
                    VarState::Updated => Err(DefUseError::UpdatedTwice(id.clone())),
                    VarState::Declared => {
                        self.symbol_table.set_state(i, VarState::Defined);
                        Ok(())
                    },
                }
            },
        }
    }

    fn assign_field(&mut self, id: &String, f: &String) -> (r: Result<(), DefUseError>)
        requires old(self).wf(),
        ensures
            final(self).wf(),
            match r {
                Ok(_) => assign_field(old(self)@, id@, f@) == Ok::<SpecDefUse, SpecDefUseError>(final(self)@),
                Err(e) => assign_field(old(self)@, id@, f@) == Err::<SpecDefUse, SpecDefUseError>(e@),
            },
    {
        let key = path2(&self.current_snippet, id);
        match self.symbol_table.find(&key) {
            None => {
                return Err(DefUseError::UndeclaredVariable(id.clone(), self.current_snippet.clone()));
            },
            Some(i) => {
                let m = self.symbol_table.meta(i);
                if m.var_state == VarState::Declared {
                    match &m.var_type.var_info {
                        VarInfo::Packet(p) => {
                            if self.packet_table.find(&path2(&p.id_name, f)).is_none() {
                                return Err(DefUseError::NoSuchField(p.id_name.clone(), f.clone()));
                            }
                        },
                        VarInfo::BitArray(_, _) => {
                            return Err(DefUseError::FieldOfNonPacket(id.clone(), f.clone()));
                        },
                    }
                }
            },
        }
        let fkey = path3(&self.current_snippet, id, f);
        match self.field_table.find(&fkey) {
            None => Err(DefUseError::UndeclaredField(id.clone(), f.clone(), self.current_snippet.clone())),
            Some(j) => {
                let m = self.field_table.meta(j);
                match m.var_state {
                    VarState::Declared => match &m.var_type.var_info {
                        VarInfo::BitArray(_, _) => {
                            self.field_table.set_state(j, VarState::Defined);
                            Ok(())
                        },
                        VarInfo::Packet(_) => Err(DefUseError::FieldNotBitArray(id.clone(), f.clone())),
                    },
                    VarState::Defined => {
                        self.field_table.set_state(j, VarState::Updated);
                        Ok(())
                    },
                    VarState::Updated => Ok(()),
                }
            },
        }
    }

    /// Checks a statement: what it reads must be defined, what it assigns declared and not
    /// yet defined (persistent variables may be updated once, packet fields more often).
    pub fn visit_statement(&mut self, tree: &Statement) -> (r: Result<(), DefUseError>)
        requires old(self).wf(),
        ensures
            final(self).wf(),
            match r {
                Ok(_) => visit_statement_spec(old(self)@, tree@) == Ok::<SpecDefUse, SpecDefUseError>(final(self)@),
                Err(e) => visit_statement_spec(old(self)@, tree@) == Err::<SpecDefUse, SpecDefUseError>(e@),
            },
    {
        self.visit_expr(&tree.expr)?;
        match &tree.lvalue {
            LValue::Field(id, f) => {
                if f.id_name.as_str().is_empty() {
                    self.assign_var(&id.id_name)
                } else {
                    self.assign_field(&id.id_name, &f.id_name)
                }
            },
            LValue::Scalar(id) => self.assign_var(&id.id_name),
            LValue::Array(id, _) => self.assign_var(&id.id_name),
        }
    }

    fn copy_packet_fields(&mut self, cs: &String, id: &String, p: &String)
        requires old(self).wf(),
        ensures
            final(self).wf(),
            final(self)@ == (SpecDefUse { fields: with_packet_fields(old(self)@.fields, old(self)@.packets, cs@, id@, p@), ..old(self)@ }),
    {
        let ghost s0 = self@;
        let ghost f0 = self@.fields;
        let ghost pk = self@.packets;
        let n = self.packet_table.size();
        let mut i: usize = 0;
        while i < n
            invariant
                self.wf(),
                n == self.packet_table.len(),
                i <= n,
                self@.packets == pk,
                s0.packets == pk,
                self@ == (SpecDefUse { fields: self@.fields, ..s0 }),
                forall|k: Seq<Seq<char>>| #[trigger] self@.fields.contains_key(k) <==> (f0.contains_key(k)
                    || (is_copy_key(pk, cs@, id@, p@, k) && exists|j: int| 0 <= j < i && self.packet_table.key_at(j) == seq![p@, k[2]])),
                forall|k: Seq<Seq<char>>| #[trigger] self@.fields.contains_key(k) ==> self@.fields[k] == (if is_copy_key(pk, cs@, id@, p@, k)
                    && exists|j: int| 0 <= j < i && self.packet_table.key_at(j) == seq![p@, k[2]] {
                    with_state(pk[seq![p@, k[2]]], VarState::Declared)
                } else {
                    f0[k]
                }),
            decreases n - i,
        {
            let key = self.packet_table.key(i);
            let ghost ki = self.packet_table.key_at(i as int);
            if key.len() == 2 && key[0] == *p {
                let m = self.packet_table.meta(i);
                let nm = VariableMetadata { var_type: copy_var_type(&m.var_type), var_state: VarState::Declared };
                let fk = path3(cs, id, &key[1]);
                let ghost f = key@[1]@;
                proof {
                    assert(ki == seq![p@, f]) by {
                        assert(ki =~= seq![p@, f]);
                    }
                    assert(pk.contains_key(ki));
                }
                let ghost before = self@.fields;
                self.field_table.upsert(fk, nm);
                proof {
                    let fkey = seq![cs@, id@, f];
                    assert(fkey[2] == f);
                    assert(is_copy_key(pk, cs@, id@, p@, fkey));
                    assert forall|k: Seq<Seq<char>>| #[trigger] self@.fields.contains_key(k) <==> (f0.contains_key(k)
                        || (is_copy_key(pk, cs@, id@, p@, k) && exists|j: int| 0 <= j < i + 1 && self.packet_table.key_at(j) == seq![p@, k[2]])) by {
                        if k == fkey {
                            assert(self.packet_table.key_at(i as int) == seq![p@, k[2]]);
                        } else if is_copy_key(pk, cs@, id@, p@, k) && (exists|j: int| 0 <= j < i + 1 && self.packet_table.key_at(j) == seq![p@, k[2]]) {
                            let j = choose|j: int| 0 <= j < i + 1 && self.packet_table.key_at(j) == seq![p@, k[2]];
                            if j == i {
                                assert(k =~= fkey);
                            }
                        }
                    }
                    assert forall|k: Seq<Seq<char>>| #[trigger] self@.fields.contains_key(k) implies self@.fields[k] == (if is_copy_key(pk, cs@, id@, p@, k)
                        && exists|j: int| 0 <= j < i + 1 && self.packet_table.key_at(j) == seq![p@, k[2]] {
                        with_state(pk[seq![p@, k[2]]], VarState::Declared)
                    } else {
                        f0[k]
                    }) by {
                        if k == fkey {
                            assert(self.packet_table.key_at(i as int) == seq![p@, k[2]]);
                        } else if is_copy_key(pk, cs@, id@, p@, k) && (exists|j: int| 0 <= j < i + 1 && self.packet_table.key_at(j) == seq![p@, k[2]]) {
                            let j = choose|j: int| 0 <= j < i + 1 && self.packet_table.key_at(j) == seq![p@, k[2]];
                            if j == i {
                                assert(k =~= fkey);
                            }
                        }
                    }
                }
            } else {
                proof {
                    assert forall|k: Seq<Seq<char>>| is_copy_key(pk, cs@, id@, p@, k) && (exists|j: int| 0 <= j < i + 1 && self.packet_table.key_at(j) == seq![p@, k[2]])
                        implies (exists|j: int| 0 <= j < i && self.packet_table.key_at(j) == seq![p@, k[2]]) by {
                        let j = choose|j: int| 0 <= j < i + 1 && self.packet_table.key_at(j) == seq![p@, k[2]];
                        if j == i {
                            assert(ki == seq![p@, k[2]]);
                            assert(key@.len() == ki.len());
                            assert(key@[0]@ == ki[0]);
                        }
                    }
                }
            }
            i = i + 1;
        }
        proof {
            assert forall|k: Seq<Seq<char>>| is_copy_key(pk, cs@, id@, p@, k)
                implies (exists|j: int| 0 <= j < i && self.packet_table.key_at(j) == seq![p@, k[2]]) by {
                let key = seq![p@, k[2]];
                assert(pk.contains_key(key));
                let j = choose|j: int| 0 <= j < self.packet_table.len() && self.packet_table.key_at(j) == key;
            }
            assert(self@.fields =~= with_packet_fields(f0, pk, cs@, id@, p@));
        }
    }

    /// Records a declaration, as a global or in the current snippet.
    pub fn visit_variable_decl(&mut self, tree: &VariableDecl) -> (r: Result<(), DefUseError>)
        requires old(self).wf(),
        ensures
            final(self).wf(),
            match r {
                Ok(_) => visit_variable_decl_spec(old(self)@, tree@) == Ok::<SpecDefUse, SpecDefUseError>(final(self)@),
                Err(e) => visit_variable_decl_spec(old(self)@, tree@) == Err::<SpecDefUse, SpecDefUseError>(e@),
            },
    {
        let id = &tree.identifier.id_name;
        let tq = tree.var_type.type_qualifier;
        if tq != TypeQualifier::Global {
            if !contains_name(&self.snippet_set, &self.current_snippet) {
                return Err(DefUseError::DeclarationOutsideSnippet(id.clone()));
            }
            let key = path2(&self.current_snippet, id);
            if self.symbol_table.find(&key).is_some() {
                return Err(DefUseError::DuplicateVariable(id.clone(), self.current_snippet.clone()));
            }
            let state = match tq {
                TypeQualifier::Input | TypeQualifier::Const | TypeQualifier::Persistent => VarState::Defined,
                _ => VarState::Declared,
            };
            self.symbol_table.insert_new(key, VariableMetadata { var_type: copy_var_type(&tree.var_type), var_state: state });
            match &tree.var_type.var_info {
                VarInfo::Packet(pname) => {
                    if contains_name(&self.packet_set, &pname.id_name) {
                        let cs = self.current_snippet.clone();
                        self.copy_packet_fields(&cs, id, &pname.id_name);
                        Ok(())
                    } else {
                        Err(DefUseError::UndeclaredPacket(pname.id_name.clone()))
                    }
                },
                VarInfo::BitArray(_, _) => Ok(()),
            }
        } else {
            let key = path1(id);
            if self.global_table.find(&key).is_some() {
                return Err(DefUseError::DuplicateGlobal(id.clone()));
            }
            self.global_table.insert_new(key, VariableMetadata { var_type: copy_var_type(&tree.var_type), var_state: VarState::Defined });
            Ok(())
        }
    }

    /// Records a field of the current packet.
    pub fn visit_packet_field(&mut self, tree: &PacketField) -> (r: Result<(), DefUseError>)
        requires old(self).wf(),
        ensures
            final(self).wf(),
            match r {
                Ok(_) => visit_packet_field_spec(old(self)@, tree@) == Ok::<SpecDefUse, SpecDefUseError>(final(self)@),
                Err(e) => visit_packet_field_spec(old(self)@, tree@) == Err::<SpecDefUse, SpecDefUseError>(e@),
            },
    {
        let id = &tree.identifier.id_name;
        if tree.var_type.type_qualifier == TypeQualifier::Field {
            let key = path2(&self.current_packet, id);
            if self.packet_table.find(&key).is_some() {
                return Err(DefUseError::DuplicateField(id.clone(), self.current_packet.clone()));
            }
            self.packet_table.insert_new(key, VariableMetadata { var_type: copy_var_type(&tree.var_type), var_state: VarState::Declared });
            Ok(())
        } else {
            Err(DefUseError::NonFieldInPacket(id.clone()))
        }
    }

    /// Records a packet and its fields.
    pub fn visit_packet(&mut self, tree: &Packet) -> (r: Result<(), DefUseError>)
        requires old(self).wf(),
        ensures
            final(self).wf(),
            match r {
                Ok(_) => visit_packet_spec(old(self)@, tree@) == Ok::<SpecDefUse, SpecDefUseError>(final(self)@),
                Err(e) => visit_packet_spec(old(self)@, tree@) == Err::<SpecDefUse, SpecDefUseError>(e@),
            },
    {
        let pid = &tree.packet_id.id_name;
        if contains_name(&self.packet_set, pid) {
            return Err(DefUseError::DuplicatePacket(pid.clone()));
        }
        self.current_packet = pid.clone();
        insert_name(&mut self.packet_set, pid);
        let ghost s1 = self@;
        assert(s1 =~= (SpecDefUse { current_packet: tree@.packet_id, packet_set: old(self)@.packet_set.insert(tree@.packet_id), ..old(self)@ }));
        let fields = &tree.packet_fields.field_vector;
        let ghost fs = tree@.packet_fields;
        let ghost step = |s: SpecDefUse, x: SpecPacketField| visit_packet_field_spec(s, x);
        let mut i: usize = 0;
        assert(fold_steps(s1, fs.subrange(0, 0), step) == Ok::<SpecDefUse, SpecDefUseError>(s1));
        assert(visit_packet_spec(old(self)@, tree@) == fold_steps(s1, fs, step));
        while i < fields.len()
            invariant
                self.wf(),
                visit_packet_spec(old(self)@, tree@) == fold_steps(s1, fs, step),
                i <= fields@.len(),
                fields == &tree.packet_fields.field_vector,
                fs == tree@.packet_fields,
                step == (|s: SpecDefUse, x: SpecPacketField| visit_packet_field_spec(s, x)),
                fold_steps(s1, fs.subrange(0, i as int), step) == Ok::<SpecDefUse, SpecDefUseError>(self@),
            decreases fields@.len() - i,
        {
            proof {
                lemma_fold_steps_next(s1, fs, step, i as int);
                assert(fs[i as int] == fields@[i as int]@);
            }
            let ghost before = self@;
            match self.visit_packet_field(&fields[i]) {
                Ok(_) => {},
                Err(e) => {
                    proof {
                        assert(step(before, fs[i as int]) == Err::<SpecDefUse, SpecDefUseError>(e@));
                        assert(fold_steps(s1, fs.subrange(0, i + 1), step) == Err::<SpecDefUse, SpecDefUseError>(e@));
                        lemma_fold_steps_err(s1, fs, step, i + 1);
                        assert(fold_steps(s1, fs, step) == Err::<SpecDefUse, SpecDefUseError>(e@));
                        assert(fold_fields(s1, fs) == Err::<SpecDefUse, SpecDefUseError>(e@));
                    }
                    return Err(e);
                },
            }
            i = i + 1;
        }
        assert(fs.subrange(0, i as int) =~= fs);
        Ok(())
    }

    fn visit_statements(&mut self, tree: &Statements) -> (r: Result<(), DefUseError>)
        requires old(self).wf(),
        ensures
            final(self).wf(),
            match r {
                Ok(_) => fold_statements(old(self)@, tree@) == Ok::<SpecDefUse, SpecDefUseError>(final(self)@),
                Err(e) => fold_statements(old(self)@, tree@) == Err::<SpecDefUse, SpecDefUseError>(e@),
            },
    {
        let ghost s1 = self@;
        let items = &tree.stmt_vector;
        let ghost xs = tree@;
        let ghost step = |s: SpecDefUse, x: SpecStatement| visit_statement_spec(s, x);
        let mut i: usize = 0;
        assert(fold_steps(s1, xs.subrange(0, 0), step) == Ok::<SpecDefUse, SpecDefUseError>(s1));
        assert(fold_statements(old(self)@, tree@) == fold_steps(s1, xs, step));
        while i < items.len()
            invariant
                self.wf(),
                fold_statements(old(self)@, tree@) == fold_steps(s1, xs, step),
                i <= items@.len(),
                items == &tree.stmt_vector,
                xs == tree@,
                step == (|s: SpecDefUse, x: SpecStatement| visit_statement_spec(s, x)),
                fold_steps(s1, xs.subrange(0, i as int), step) == Ok::<SpecDefUse, SpecDefUseError>(self@),
            decreases items@.len() - i,
        {
            proof {
                lemma_fold_steps_next(s1, xs, step, i as int);
                assert(xs[i as int] == items@[i as int]@);
            }
            match self.visit_statement(&items[i]) {
                Ok(_) => {},
                Err(e) => {
                    proof {
                        lemma_fold_steps_err(s1, xs, step, i + 1);
                    }
                    return Err(e);
                },
            }
            i = i + 1;
        }
        assert(xs.subrange(0, i as int) =~= xs);
        Ok(())
    }

    /// Checks a block: its statements, then its condition.
    pub fn visit_ifblock(&mut self, tree: &IfBlock) -> (r: Result<(), DefUseError>)
        requires old(self).wf(),
        ensures
            final(self).wf(),
            match r {
                Ok(_) => visit_ifblock_spec(old(self)@, tree@) == Ok::<SpecDefUse, SpecDefUseError>(final(self)@),
                Err(e) => visit_ifblock_spec(old(self)@, tree@) == Err::<SpecDefUse, SpecDefUseError>(e@),
            },
    {
        self.visit_statements(&tree.statements)?;
        self.visit_expr(&tree.condition.expr)
    }

    fn visit_variable_decls(&mut self, tree: &VariableDecls) -> (r: Result<(), DefUseError>)
        requires old(self).wf(),
        ensures
            final(self).wf(),
            match r {
                Ok(_) => fold_decls(old(self)@, tree@) == Ok::<SpecDefUse, SpecDefUseError>(final(self)@),
                Err(e) => fold_decls(old(self)@, tree@) == Err::<SpecDefUse, SpecDefUseError>(e@),
            },
    {
        let ghost s1 = self@;
        let items = &tree.decl_vector;
        let ghost xs = tree@;
        let ghost step = |s: SpecDefUse, x: SpecVariableDecl| visit_variable_decl_spec(s, x);
        let mut i: usize = 0;
        assert(fold_steps(s1, xs.subrange(0, 0), step) == Ok::<SpecDefUse, SpecDefUseError>(s1));
        assert(fold_decls(old(self)@, tree@) == fold_steps(s1, xs, step));
        while i < items.len()
            invariant
                self.wf(),
                fold_decls(old(self)@, tree@) == fold_steps(s1, xs, step),
                i <= items@.len(),
                items == &tree.decl_vector,
                xs == tree@,
                step == (|s: SpecDefUse, x: SpecVariableDecl| visit_variable_decl_spec(s, x)),
                fold_steps(s1, xs.subrange(0, i as int), step) == Ok::<SpecDefUse, SpecDefUseError>(self@),
            decreases items@.len() - i,
        {
            proof {
                lemma_fold_steps_next(s1, xs, step, i as int);
                assert(xs[i as int] == items@[i as int]@);
            }
            match self.visit_variable_decl(&items[i]) {
                Ok(_) => {},
                Err(e) => {
                    proof {
                        lemma_fold_steps_err(s1, xs, step, i + 1);
                    }
                    return Err(e);
                },
            }
            i = i + 1;
        }
        assert(xs.subrange(0, i as int) =~= xs);
        Ok(())
    }

    fn visit_ifblocks(&mut self, tree: &IfBlocks) -> (r: Result<(), DefUseError>)
        requires old(self).wf(),
        ensures
            final(self).wf(),
            match r {
                Ok(_) => fold_ifblocks(old(self)@, tree@) == Ok::<SpecDefUse, SpecDefUseError>(final(self)@),
                Err(e) => fold_ifblocks(old(self)@, tree@) == Err::<SpecDefUse, SpecDefUseError>(e@),
            },
    {
        let ghost s1 = self@;
        let items = &tree.ifblock_vector;
        let ghost xs = tree@;
        let ghost step = |s: SpecDefUse, x: SpecIfBlock| visit_ifblock_spec(s, x);
        let mut i: usize = 0;
        assert(fold_steps(s1, xs.subrange(0, 0), step) == Ok::<SpecDefUse, SpecDefUseError>(s1));
        assert(fold_ifblocks(old(self)@, tree@) == fold_steps(s1, xs, step));
        while i < items.len()
            invariant
                self.wf(),
                fold_ifblocks(old(self)@, tree@) == fold_steps(s1, xs, step),
                i <= items@.len(),
                items == &tree.ifblock_vector,
                xs == tree@,
                step == (|s: SpecDefUse, x: SpecIfBlock| visit_ifblock_spec(s, x)),
                fold_steps(s1, xs.subrange(0, i as int), step) == Ok::<SpecDefUse, SpecDefUseError>(self@),
            decreases items@.len() - i,
        {
            proof {
                lemma_fold_steps_next(s1, xs, step, i as int);
                assert(xs[i as int] == items@[i as int]@);
            }
            match self.visit_ifblock(&items[i]) {
                Ok(_) => {},
                Err(e) => {
                    proof {
                        lemma_fold_steps_err(s1, xs, step, i + 1);
                    }
                    return Err(e);
                },
            }
            i = i + 1;
        }
        assert(xs.subrange(0, i as int) =~= xs);
        Ok(())
    }

    /// Checks a snippet: its declarations, then its blocks.
    pub fn visit_snippet(&mut self, tree: &Snippet) -> (r: Result<(), DefUseError>)
        requires old(self).wf(),
        ensures
            final(self).wf(),
            match r {
                Ok(_) => visit_snippet_spec(old(self)@, tree@) == Ok::<SpecDefUse, SpecDefUseError>(final(self)@),
                Err(e) => visit_snippet_spec(old(self)@, tree@) == Err::<SpecDefUse, SpecDefUseError>(e@),
            },
    {
        let sid = &tree.snippet_id.id_name;
        if contains_name(&self.snippet_set, sid) {
            return Err(DefUseError::DuplicateSnippet(sid.clone()));
        }
        self.current_snippet = sid.clone();
        insert_name(&mut self.snippet_set, sid);
        assert(self@ =~= (SpecDefUse { current_snippet: tree@.snippet_id, snippet_set: old(self)@.snippet_set.insert(tree@.snippet_id), ..old(self)@ }));
        self.visit_variable_decls(&tree.variable_decls)?;
        self.visit_ifblocks(&tree.ifblocks)
    }

    fn visit_globals(&mut self, tree: &Globals) -> (r: Result<(), DefUseError>)
        requires old(self).wf(),
        ensures
            final(self).wf(),
            match r {
                Ok(_) => fold_decls(old(self)@, tree@) == Ok::<SpecDefUse, SpecDefUseError>(final(self)@),
                Err(e) => fold_decls(old(self)@, tree@) == Err::<SpecDefUse, SpecDefUseError>(e@),
            },
    {
        let ghost s1 = self@;
        let items = &tree.global_vector;
        let ghost xs = tree@;
        let ghost step = |s: SpecDefUse, x: SpecVariableDecl| visit_variable_decl_spec(s, x);
        let mut i: usize = 0;
        assert(fold_steps(s1, xs.subrange(0, 0), step) == Ok::<SpecDefUse, SpecDefUseError>(s1));
        assert(fold_decls(old(self)@, tree@) == fold_steps(s1, xs, step));
        while i < items.len()
            invariant
                self.wf(),
                fold_decls(old(self)@, tree@) == fold_steps(s1, xs, step),
                i <= items@.len(),
                items == &tree.global_vector,
                xs == tree@,
                step == (|s: SpecDefUse, x: SpecVariableDecl| visit_variable_decl_spec(s, x)),
                fold_steps(s1, xs.subrange(0, i as int), step) == Ok::<SpecDefUse, SpecDefUseError>(self@),
            decreases items@.len() - i,
        {
            proof {
                lemma_fold_steps_next(s1, xs, step, i as int);
                assert(xs[i as int] == items@[i as int]@);
            }
            match self.visit_variable_decl(&items[i]) {
                Ok(_) => {},
                Err(e) => {
                    proof {
                        lemma_fold_steps_err(s1, xs, step, i + 1);
                    }
                    return Err(e);
                },
            }
            i = i + 1;
        }
        assert(xs.subrange(0, i as int) =~= xs);
        Ok(())
    }

    fn visit_packets(&mut self, tree: &Packets) -> (r: Result<(), DefUseError>)
        requires old(self).wf(),
        ensures
            final(self).wf(),
            match r {
                Ok(_) => fold_packets(old(self)@, tree@) == Ok::<SpecDefUse, SpecDefUseError>(final(self)@),
                Err(e) => fold_packets(old(self)@, tree@) == Err::<SpecDefUse, SpecDefUseError>(e@),
            },
    {
        let ghost s1 = self@;
        let items = &tree.packet_vector;
        let ghost xs = tree@;
        let ghost step = |s: SpecDefUse, x: SpecPacket| visit_packet_spec(s, x);
        let mut i: usize = 0;
        assert(fold_steps(s1, xs.subrange(0, 0), step) == Ok::<SpecDefUse, SpecDefUseError>(s1));
        assert(fold_packets(old(self)@, tree@) == fold_steps(s1, xs, step));
        while i < items.len()
            invariant
                self.wf(),
                fold_packets(old(self)@, tree@) == fold_steps(s1, xs, step),
                i <= items@.len(),
                items == &tree.packet_vector,
                xs == tree@,
                step == (|s: SpecDefUse, x: SpecPacket| visit_packet_spec(s, x)),
                fold_steps(s1, xs.subrange(0, i as int), step) == Ok::<SpecDefUse, SpecDefUseError>(self@),
            decreases items@.len() - i,
        {
            proof {
                lemma_fold_steps_next(s1, xs, step, i as int);
                assert(xs[i as int] == items@[i as int]@);
            }
            match self.visit_packet(&items[i]) {
                Ok(_) => {},
                Err(e) => {
                    proof {
                        lemma_fold_steps_err(s1, xs, step, i + 1);
                    }
                    return Err(e);
                },
            }
            i = i + 1;
        }
        assert(xs.subrange(0, i as int) =~= xs);
        Ok(())
    }

    fn visit_snippets(&mut self, tree: &Snippets) -> (r: Result<(), DefUseError>)
        requires old(self).wf(),
        ensures
            final(self).wf(),
            match r {
                Ok(_) => fold_snippets(old(self)@, tree@) == Ok::<SpecDefUse, SpecDefUseError>(final(self)@),
                Err(e) => fold_snippets(old(self)@, tree@) == Err::<SpecDefUse, SpecDefUseError>(e@),
            },
    {
        let ghost s1 = self@;
        let items = &tree.snippet_vector;
        let ghost xs = tree@;
        let ghost step = |s: SpecDefUse, x: SpecSnippet| visit_snippet_spec(s, x);
        let mut i: usize = 0;
        assert(fold_steps(s1, xs.subrange(0, 0), step) == Ok::<SpecDefUse, SpecDefUseError>(s1));
        assert(fold_snippets(old(self)@, tree@) == fold_steps(s1, xs, step));
        while i < items.len()
            invariant
                self.wf(),
                fold_snippets(old(self)@, tree@) == fold_steps(s1, xs, step),
                i <= items@.len(),
                items == &tree.snippet_vector,
                xs == tree@,
                step == (|s: SpecDefUse, x: SpecSnippet| visit_snippet_spec(s, x)),
                fold_steps(s1, xs.subrange(0, i as int), step) == Ok::<SpecDefUse, SpecDefUseError>(self@),
            decreases items@.len() - i,
        {
            proof {
                lemma_fold_steps_next(s1, xs, step, i as int);
                assert(xs[i as int] == items@[i as int]@);
            }
            match self.visit_snippet(&items[i]) {
                Ok(_) => {},
                Err(e) => {
                    proof {
                        lemma_fold_steps_err(s1, xs, step, i + 1);
                    }
                    return Err(e);
                },
            }
            i = i + 1;
        }
        assert(xs.subrange(0, i as int) =~= xs);
        Ok(())
    }

    fn check_pair(&self, from: &String, to: &String, fv: &String, tv: &String) -> (r: Result<(), DefUseError>)
        requires self.wf(),
        ensures
            match r {
                Ok(_) => check_pair(self@, from@, to@, fv@, tv@) is Ok,
                Err(e) => check_pair(self@, from@, to@, fv@, tv@) == Err::<(), SpecDefUseError>(e@),
            },
    {
        let i = match self.symbol_table.find(&path2(from, fv)) {
            None => {
                return Err(DefUseError::NonexistentVariable(fv.clone(), from.clone()));
            },
            Some(i) => i,
        };
        let mf = self.symbol_table.meta(i);
        if mf.var_type.type_qualifier != TypeQualifier::Output {
            return Err(DefUseError::NotOutput(fv.clone(), from.clone()));
        }
        let j = match self.symbol_table.find(&path2(to, tv)) {
            None => {
                return Err(DefUseError::NonexistentVariable(tv.clone(), to.clone()));
            },
            Some(j) => j,
        };
        let mt = self.symbol_table.meta(j);
        if mt.var_type.type_qualifier != TypeQualifier::Input {
            return Err(DefUseError::NotInput(tv.clone(), to.clone()));
        }
        let (tw, ts) = match &mt.var_type.var_info {
            VarInfo::BitArray(w, n) => (*w, *n),
            VarInfo::Packet(_) => (0, 0),
        };
        let (fw, fs) = match &mf.var_type.var_info {
            VarInfo::BitArray(w, n) => (*w, *n),
            VarInfo::Packet(_) => (0, 0),
        };
        if tw != fw {
            return Err(DefUseError::WidthMismatch(from.clone(), fv.clone(), to.clone(), tv.clone()));
        }
        if ts != fs {
            return Err(DefUseError::SizeMismatch(from.clone(), fv.clone(), to.clone(), tv.clone()));
        }
        Ok(())
    }

    /// Checks a connection: both snippets are there, and each pair joins an output of the
    /// first to an input of the second, of the same width and size.
    pub fn visit_connection(&self, tree: &Connection) -> (r: Result<(), DefUseError>)
        requires self.wf(),
        ensures
            match r {
                Ok(_) => check_connection(self@, tree@) is Ok,
                Err(e) => check_connection(self@, tree@) == Err::<(), SpecDefUseError>(e@),
            },
    {
        let from = &tree.from_snippet.id_name;
        let to = &tree.to_snippet.id_name;
        if !contains_name(&self.snippet_set, from) {
            return Err(DefUseError::UndefinedSnippet(from.clone()));
        }
        if !contains_name(&self.snippet_set, to) {
            return Err(DefUseError::UndefinedSnippet(to.clone()));
        }
        let pairs = &tree.variable_pairs;
        let ghost xs = tree@.variable_pairs;
        let ghost check = |pr: (Seq<char>, Seq<char>)| check_pair(self@, from@, to@, pr.0, pr.1);
        let mut i: usize = 0;
        assert(fold_checks(xs.subrange(0, 0), check) is Ok);
        assert(check_connection(self@, tree@) == fold_checks(xs, check));
        while i < pairs.len()
            invariant
                self.wf(),
                check_connection(self@, tree@) == fold_checks(xs, check),
                i <= pairs@.len(),
                pairs == &tree.variable_pairs,
                xs == tree@.variable_pairs,
                check == (|pr: (Seq<char>, Seq<char>)| check_pair(self@, from@, to@, pr.0, pr.1)),
                fold_checks(xs.subrange(0, i as int), check) is Ok,
            decreases pairs@.len() - i,
        {
            proof {
                lemma_fold_checks_next(xs, check, i as int);
                assert(xs[i as int] == pairs@[i as int]@);
            }
            let pr = &pairs[i];
            match self.check_pair(from, to, &pr.from_var.id_name, &pr.to_var.id_name) {
                Ok(_) => {},
                Err(e) => {
                    proof {
                        lemma_fold_checks_err(xs, check, i + 1);
                    }
                    return Err(e);
                },
            }
            i = i + 1;
        }
        assert(xs.subrange(0, i as int) =~= xs);
        Ok(())
    }

    /// Checks the connections, in order.
    pub fn visit_connections(&self, tree: &Connections) -> (r: Result<(), DefUseError>)
        requires self.wf(),
        ensures
            match r {
                Ok(_) => check_connections(self@, tree@) is Ok,
                Err(e) => check_connections(self@, tree@) == Err::<(), SpecDefUseError>(e@),
            },
    {
        let items = &tree.connection_vector;
        let ghost xs = tree@;
        let ghost check = |c: SpecConnection| check_connection(self@, c);
        let mut i: usize = 0;
        assert(fold_checks(xs.subrange(0, 0), check) is Ok);
        assert(check_connections(self@, tree@) == fold_checks(xs, check));
        while i < items.len()
            invariant
                self.wf(),
                check_connections(self@, tree@) == fold_checks(xs, check),
                i <= items@.len(),
                items == &tree.connection_vector,
                xs == tree@,
                check == (|c: SpecConnection| check_connection(self@, c)),
                fold_checks(xs.subrange(0, i as int), check) is Ok,
            decreases items@.len() - i,
        {
            proof {
                lemma_fold_checks_next(xs, check, i as int);
                assert(xs[i as int] == items@[i as int]@);
            }
            match self.visit_connection(&items[i]) {
                Ok(_) => {},
                Err(e) => {
                    proof {
                        lemma_fold_checks_err(xs, check, i + 1);
                    }
                    return Err(e);
                },
            }
            i = i + 1;
        }
        assert(xs.subrange(0, i as int) =~= xs);
        Ok(())
    }

    /// Checks a whole program: its globals, packets, snippets and connections. The checker's
    /// state afterwards holds what the program declares.
    pub fn visit_prog(&mut self, tree: &Prog) -> (r: Result<(), DefUseError>)
        requires old(self).wf(),
        ensures
            final(self).wf(),
            match r {
                Ok(_) => visit_prog_spec(old(self)@, tree@) == Ok::<SpecDefUse, SpecDefUseError>(final(self)@),
                Err(e) => visit_prog_spec(old(self)@, tree@) == Err::<SpecDefUse, SpecDefUseError>(e@),
            },
    {
        self.visit_globals(&tree.globals)?;
        self.visit_packets(&tree.packets)?;
        self.visit_snippets(&tree.snippets)?;
        self.visit_connections(&tree.connections)
    }

    /// The variables of a snippet, each with its type and state.
    pub fn get_symbol_table(&self, snippet: &str) -> (r: Vec<(String, VariableMetadata)>)
        requires
            self.wf(),
        ensures
            forall|i: int| 0 <= i < r@.len() ==> self@.symbols.contains_key(pair_key(snippet@, (#[trigger] r@[i]).0@))
                && self@.symbols[pair_key(snippet@, r@[i].0@)] == r@[i].1@,
            forall|v: Seq<char>| #[trigger] self@.symbols.contains_key(pair_key(snippet@, v))
                ==> exists|i: int| 0 <= i < r@.len() && (#[trigger] r@[i]).0@ == v,
            forall|i: int, j: int| 0 <= i < j < r@.len() ==> (#[trigger] r@[i]).0@ != (#[trigger] r@[j]).0@,
    {
        let mut name = String::new();
        name.append(snippet);
        self.table_of(&self.symbol_table, &name)
    }

    /// The fields of a packet, each with its type.
    pub fn get_packet_table(&self, packet: &str) -> (r: Vec<(String, VariableMetadata)>)
        requires
            self.wf(),
        ensures
            forall|i: int| 0 <= i < r@.len() ==> self@.packets.contains_key(pair_key(packet@, (#[trigger] r@[i]).0@))
                && self@.packets[pair_key(packet@, r@[i].0@)] == r@[i].1@,
            forall|v: Seq<char>| #[trigger] self@.packets.contains_key(pair_key(packet@, v))
                ==> exists|i: int| 0 <= i < r@.len() && (#[trigger] r@[i]).0@ == v,
            forall|i: int, j: int| 0 <= i < j < r@.len() ==> (#[trigger] r@[i]).0@ != (#[trigger] r@[j]).0@,
    {
        let mut name = String::new();
        name.append(packet);
        self.table_of(&self.packet_table, &name)
    }

    fn table_of(&self, t: &MetaTable, first: &String) -> (r: Vec<(String, VariableMetadata)>)
        requires
            t.wf(),
        ensures
            forall|i: int| 0 <= i < r@.len() ==> t.view().contains_key(pair_key(first@, (#[trigger] r@[i]).0@))
                && t.view()[pair_key(first@, r@[i].0@)] == r@[i].1@,
            forall|v: Seq<char>| #[trigger] t.view().contains_key(pair_key(first@, v))
                ==> exists|i: int| 0 <= i < r@.len() && (#[trigger] r@[i]).0@ == v,
            forall|i: int, j: int| 0 <= i < j < r@.len() ==> (#[trigger] r@[i]).0@ != (#[trigger] r@[j]).0@,
    {
        let mut r: Vec<(String, VariableMetadata)> = Vec::new();
        let n = t.size();
        let mut i: usize = 0;
        while i < n
            invariant
                t.wf(),
                n == t.len(),
                i <= n,
                forall|k: int| 0 <= k < r@.len() ==> t.view().contains_key(seq![first@, (#[trigger] r@[k]).0@])
                    && t.view()[seq![first@, r@[k].0@]] == r@[k].1@,
                forall|j: int| 0 <= j < i ==> #[trigger] t.key_at(j).len() == 2 && t.key_at(j)[0] == first@
                    ==> exists|k: int| 0 <= k < r@.len() && (#[trigger] r@[k]).0@ == t.key_at(j)[1],
                forall|k: int| 0 <= k < r@.len() ==> exists|j: int| 0 <= j < i && #[trigger] t.key_at(j) == seq![first@, (#[trigger] r@[k]).0@],
                forall|a: int, b: int| 0 <= a < b < r@.len() ==> (#[trigger] r@[a]).0@ != (#[trigger] r@[b]).0@,
            decreases n - i,
        {
            let key = t.key(i);
            let ghost old_r = r@;
            let hit = key.len() == 2 && key[0] == *first;
            if hit {
                let m = t.meta(i);
                let entry = (key[1].clone(), VariableMetadata { var_type: copy_var_type(&m.var_type), var_state: m.var_state });
                proof {
                    assert(t.key_at(i as int) =~= seq![first@, key@[1]@]);
                }
                r.push(entry);
            }
            proof {
                assert forall|j: int| 0 <= j < i + 1 && #[trigger] t.key_at(j).len() == 2 && t.key_at(j)[0] == first@
                    implies exists|k: int| 0 <= k < r@.len() && (#[trigger] r@[k]).0@ == t.key_at(j)[1] by {
                    if j < i {
                        let k = choose|k: int| 0 <= k < old_r.len() && (#[trigger] old_r[k]).0@ == t.key_at(j)[1];
                        assert(r@[k] == old_r[k]);
                    } else {
                        assert(key@.len() == t.key_at(j).len());
                        assert(key@[0]@ == t.key_at(j)[0]);
                        assert(hit);
                        assert(r@[r@.len() - 1].0@ == t.key_at(j)[1]);
                    }
                }
                assert forall|k: int| 0 <= k < r@.len() implies t.view().contains_key(pair_key(first@, (#[trigger] r@[k]).0@))
                    && t.view()[pair_key(first@, r@[k].0@)] == r@[k].1@ by {
                    if k < old_r.len() {
                        assert(r@[k] == old_r[k]);
                    }
                }
                assert forall|k: int| 0 <= k < r@.len() implies exists|j: int| 0 <= j < i + 1 && #[trigger] t.key_at(j) == seq![first@, (#[trigger] r@[k]).0@] by {
                    if k < old_r.len() {
                        assert(r@[k] == old_r[k]);
                        let j = choose|j: int| 0 <= j < i && #[trigger] t.key_at(j) == seq![first@, old_r[k].0@];
                        assert(0 <= j < i + 1);
                    } else {
                        assert(t.key_at(i as int) == seq![first@, r@[k].0@]);
                    }
                }
                assert forall|a: int, b: int| 0 <= a < b < r@.len() implies (#[trigger] r@[a]).0@ != (#[trigger] r@[b]).0@ by {
                    if b >= old_r.len() {
                        assert(r@[a] == old_r[a]);
                        let j = choose|j: int| 0 <= j < i && #[trigger] t.key_at(j) == seq![first@, old_r[a].0@];
                        assert(t.key_at(i as int) == seq![first@, r@[b].0@]);
                        if r@[a].0@ == r@[b].0@ {
                            assert(t.key_at(j) == t.key_at(i as int));
                        }
                    } else {
                        assert(r@[a] == old_r[a] && r@[b] == old_r[b]);
                    }
                }
            }
            i = i + 1;
        }
        proof {
            assert forall|v: Seq<char>| #[trigger] t.view().contains_key(pair_key(first@, v))
                implies exists|k: int| 0 <= k < r@.len() && (#[trigger] r@[k]).0@ == v by {
                let key = pair_key(first@, v);
                let j = choose|j: int| 0 <= j < t.len() && t.key_at(j) == key;
                assert(t.key_at(j).len() == 2 && t.key_at(j)[0] == first@);
            }
        }
        r
    }
}

} // verus!
