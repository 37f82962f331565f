use vstd::prelude::*;
use crate::lexer::push_char;

verus! {

// ---------------------------------------------------------------------------------------------
// Abstract syntax tree of a sluice program
// ---------------------------------------------------------------------------------------------

#[derive(Debug, PartialEq)]
pub struct Prog {
    pub globals: Globals,
    pub packets: Packets,
    pub snippets: Snippets,
    pub connections: Connections,
}

#[derive(Debug, PartialEq)]
pub struct Globals {
    pub global_vector: Vec<VariableDecl>,
}

/// A global variable with its initial values.
#[derive(Debug, PartialEq)]
pub struct Global {
    pub identifier: Identifier,
    pub initial_values: Vec<Value>,
}

#[derive(Debug, PartialEq)]
pub struct Packets {
    pub packet_vector: Vec<Packet>,
}

#[derive(Debug, PartialEq)]
pub struct Packet {
    pub packet_id: Identifier,
    pub packet_base: Identifier,
    pub packet_fields: PacketFields,
    pub packet_parser_condition: PacketParserCondition,
}

#[derive(Debug, PartialEq)]
pub enum PacketParserCondition {
    ParserCondition(Identifier, Value),
    Empty(),
}

#[derive(Debug, PartialEq)]
pub struct PacketFields {
    pub field_vector: Vec<PacketField>,
}

#[derive(Debug, PartialEq)]
pub struct PacketField {
    pub identifier: Identifier,
    pub var_type: VarType,
}

#[derive(Debug, PartialEq)]
pub struct Snippets {
    pub snippet_vector: Vec<Snippet>,
}

#[derive(Debug, PartialEq)]
pub struct Snippet {
    pub snippet_id: Identifier,
    pub device_id: Identifier,
    pub variable_decls: VariableDecls,
    pub ifblocks: IfBlocks,
}

#[derive(Debug, PartialEq)]
pub struct IfBlocks {
    pub ifblock_vector: Vec<IfBlock>,
}

/// A block of statements: `condtype` 1 is an `if` block, 2 an `else` block and 3 a run of
/// unconditional statements.
#[derive(Debug, PartialEq)]
pub struct IfBlock {
    pub id: u64,
    pub condtype: u64,
    pub condition: Condition,
    pub statements: Statements,
}

#[derive(Debug, PartialEq)]
pub struct Condition {
    pub expr: Expr,
}

#[derive(Debug, PartialEq)]
pub struct Connections {
    pub connection_vector: Vec<Connection>,
}

#[derive(Debug, PartialEq)]
pub struct Connection {
    pub from_snippet: Identifier,
    pub to_snippet: Identifier,
    pub variable_pairs: Vec<VariablePair>,
}

#[derive(Debug, PartialEq)]
pub struct VariablePair {
    pub from_var: Identifier,
    pub to_var: Identifier,
}

#[derive(Debug, PartialEq)]
pub struct VariableDecls {
    pub decl_vector: Vec<VariableDecl>,
}

#[derive(Debug, PartialEq, Eq, Structural, Clone, Copy)]
pub enum TypeQualifier {
    Input,
    Output,
    Persistent,
    Transient,
    Const,
    Field,
    Global,
}

/// What a variable holds: a bit vector array (bit width, number of elements) or a packet.
#[derive(Debug, PartialEq)]
pub enum VarInfo {
    BitArray(u32, u32),
    Packet(Identifier),
}

#[derive(Debug, PartialEq)]
pub struct VarType {
    pub var_info: VarInfo,
    pub type_qualifier: TypeQualifier,
}

#[derive(Debug, PartialEq)]
pub struct VariableDecl {
    pub identifier: Identifier,
    pub initial_values: Vec<Value>,
    pub var_type: VarType,
}

#[derive(Debug, PartialEq)]
pub struct Statements {
    pub stmt_vector: Vec<Statement>,
}

#[derive(Debug, PartialEq)]
pub struct Statement {
    pub lvalue: LValue,
    pub expr: Expr,
}

#[derive(Debug, PartialEq)]
pub struct CallStacks {
    pub callstack_vector: Vec<CallStack>,
}

#[derive(Debug, PartialEq)]
pub struct CallStack {
    pub next_snippet: Identifier,
}

#[derive(Debug, PartialEq)]
pub struct Expr {
    pub op1: Operand,
    pub expr_right: ExprRight,
}

/// Binary operation types.
#[derive(Debug, PartialEq, Eq, Structural, Clone, Copy)]
pub enum BinOpType {
    BooleanAnd,
    BooleanOr,
    Plus,
    Minus,
    Mul,
    Div,
    Modulo,
    Equal,
    NotEqual,
    LTEQOp,
    GTEQOp,
    LessThan,
    GreaterThan,
}

#[derive(Debug, PartialEq)]
pub enum ExprRight {
    BinOp(BinOpType, Operand),
    Cond(Operand, Operand),
    Empty(),
}

#[derive(Debug, PartialEq)]
pub struct Identifier {
    pub id_name: String,
}

#[derive(Debug, PartialEq, Eq, Structural, Clone, Copy)]
pub struct Value {
    pub value: u32,
}

#[derive(Debug, PartialEq)]
pub enum Operand {
    LValue(LValue),
    Value(Value),
}

#[derive(Debug, PartialEq)]
pub enum LValue {
    Scalar(Identifier),
    Array(Identifier, Box<Operand>),
    Field(Identifier, Identifier),
}

// ---------------------------------------------------------------------------------------------
// Mathematical model of the syntax tree: names are character sequences, lists are sequences.
// ---------------------------------------------------------------------------------------------

pub struct SpecProg {
    pub globals: Seq<SpecVariableDecl>,
    pub packets: Seq<SpecPacket>,
    pub snippets: Seq<SpecSnippet>,
    pub connections: Seq<SpecConnection>,
}

pub struct SpecPacket {
    pub packet_id: Seq<char>,
    pub packet_base: Seq<char>,
    pub packet_fields: Seq<SpecPacketField>,
    pub packet_parser_condition: SpecParserCondition,
}

pub enum SpecParserCondition {
    ParserCondition(Seq<char>, u32),
    Empty,
}

pub struct SpecPacketField {
    pub identifier: Seq<char>,
    pub var_type: SpecVarType,
}

pub struct SpecSnippet {
    pub snippet_id: Seq<char>,
    pub device_id: Seq<char>,
    pub variable_decls: Seq<SpecVariableDecl>,
    pub ifblocks: Seq<SpecIfBlock>,
}

pub struct SpecIfBlock {
    pub id: u64,
    pub condtype: u64,
    pub condition: SpecExpr,
    pub statements: Seq<SpecStatement>,
}

pub struct SpecConnection {
    pub from_snippet: Seq<char>,
    pub to_snippet: Seq<char>,
    pub variable_pairs: Seq<(Seq<char>, Seq<char>)>,
}

pub enum SpecVarInfo {
    BitArray(u32, u32),
    Packet(Seq<char>),
}

pub struct SpecVarType {
    pub var_info: SpecVarInfo,
    pub type_qualifier: TypeQualifier,
}

pub struct SpecVariableDecl {
    pub identifier: Seq<char>,
    pub initial_values: Seq<u32>,
    pub var_type: SpecVarType,
}

pub struct SpecStatement {
    pub lvalue: SpecLValue,
    pub expr: SpecExpr,
}

pub struct SpecExpr {
    pub op1: SpecOperand,
    pub expr_right: SpecExprRight,
}

pub enum SpecExprRight {
    BinOp(BinOpType, SpecOperand),
    Cond(SpecOperand, SpecOperand),
    Empty,
}

pub enum SpecOperand {
    LValue(SpecLValue),
    Value(u32),
}

pub enum SpecLValue {
    Scalar(Seq<char>),
    Array(Seq<char>, Box<SpecOperand>),
    Field(Seq<char>, Seq<char>),
}

/// The expression reads the scalar variable `n` as one of its operands: the first operand, the
/// second operand of a binary operation, or either branch of a ternary.
pub open spec fn reads_scalar(e: SpecExpr, n: Seq<char>) -> bool {
    let x = SpecOperand::LValue(SpecLValue::Scalar(n));
    ||| e.op1 == x
    ||| e.expr_right == SpecExprRight::BinOp(e.expr_right->BinOp_0, x)
    ||| (e.expr_right is Cond && (e.expr_right->Cond_0 == x || e.expr_right->Cond_1 == x))
}

/// The views of the elements of a sequence.
pub open spec fn vec_view<T: View>(v: Seq<T>) -> Seq<T::V> {
    v.map_values(|x: T| x@)
}

pub proof fn lemma_vec_view_push<T: View>(v: Seq<T>, x: T)
    ensures vec_view(v.push(x)) == vec_view(v).push(x@),
{
    assert(vec_view(v.push(x)) =~= vec_view(v).push(x@));
}

impl View for TypeQualifier {
    type V = TypeQualifier;

    open spec fn view(&self) -> TypeQualifier {
        *self
    }
}

impl View for Identifier {
    type V = Seq<char>;

    open spec fn view(&self) -> Seq<char> {
        self.id_name@
    }
}

impl View for Value {
    type V = u32;

    open spec fn view(&self) -> u32 {
        self.value
    }
}

pub open spec fn operand_view(o: Operand) -> SpecOperand
    decreases o,
{
    match o {
        Operand::LValue(l) => SpecOperand::LValue(lvalue_view(l)),
        Operand::Value(v) => SpecOperand::Value(v.value),
    }
}

pub open spec fn lvalue_view(l: LValue) -> SpecLValue
    decreases l,
{
    match l {
        LValue::Scalar(id) => SpecLValue::Scalar(id.id_name@),
        LValue::Array(id, b) => SpecLValue::Array(id.id_name@, Box::new(operand_view(*b))),
        LValue::Field(id, f) => SpecLValue::Field(id.id_name@, f.id_name@),
    }
}

impl View for Operand {
    type V = SpecOperand;

    open spec fn view(&self) -> SpecOperand {
        operand_view(*self)
    }
}

impl View for LValue {
    type V = SpecLValue;

    open spec fn view(&self) -> SpecLValue {
        lvalue_view(*self)
    }
}

impl View for ExprRight {
    type V = SpecExprRight;

    open spec fn view(&self) -> SpecExprRight {
        match self {
            ExprRight::BinOp(op, o) => SpecExprRight::BinOp(*op, o@),
            ExprRight::Cond(a, b) => SpecExprRight::Cond(a@, b@),
            ExprRight::Empty() => SpecExprRight::Empty,
        }
    }
}

impl View for Expr {
    type V = SpecExpr;

    open spec fn view(&self) -> SpecExpr {
        SpecExpr { op1: self.op1@, expr_right: self.expr_right@ }
    }
}

impl View for Condition {
    type V = SpecExpr;

    open spec fn view(&self) -> SpecExpr {
        self.expr@
    }
}

impl View for Statement {
    type V = SpecStatement;

    open spec fn view(&self) -> SpecStatement {
        SpecStatement { lvalue: self.lvalue@, expr: self.expr@ }
    }
}

impl View for Statements {
    type V = Seq<SpecStatement>;

    open spec fn view(&self) -> Seq<SpecStatement> {
        vec_view(self.stmt_vector@)
    }
}

impl View for IfBlock {
    type V = SpecIfBlock;

    open spec fn view(&self) -> SpecIfBlock {
        SpecIfBlock {
            id: self.id,
            condtype: self.condtype,
            condition: self.condition@,
            statements: self.statements@,
        }
    }
}

impl View for IfBlocks {
    type V = Seq<SpecIfBlock>;

    open spec fn view(&self) -> Seq<SpecIfBlock> {
        vec_view(self.ifblock_vector@)
    }
}

impl View for VarInfo {
    type V = SpecVarInfo;

    open spec fn view(&self) -> SpecVarInfo {
        match self {
            VarInfo::BitArray(w, n) => SpecVarInfo::BitArray(*w, *n),
            VarInfo::Packet(id) => SpecVarInfo::Packet(id.id_name@),
        }
    }
}

impl View for VarType {
    type V = SpecVarType;

    open spec fn view(&self) -> SpecVarType {
        SpecVarType { var_info: self.var_info@, type_qualifier: self.type_qualifier }
    }
}


impl View for VariableDecl {
    type V = SpecVariableDecl;

    open spec fn view(&self) -> SpecVariableDecl {
        SpecVariableDecl {
            identifier: self.identifier.id_name@,
            initial_values: vec_view(self.initial_values@),
            var_type: self.var_type@,
        }
    }
}

impl View for VariableDecls {
    type V = Seq<SpecVariableDecl>;

    open spec fn view(&self) -> Seq<SpecVariableDecl> {
        vec_view(self.decl_vector@)
    }
}

impl View for Globals {
    type V = Seq<SpecVariableDecl>;

    open spec fn view(&self) -> Seq<SpecVariableDecl> {
        vec_view(self.global_vector@)
    }
}

impl View for PacketField {
    type V = SpecPacketField;

    open spec fn view(&self) -> SpecPacketField {
        SpecPacketField { identifier: self.identifier.id_name@, var_type: self.var_type@ }
    }
}

impl View for PacketFields {
    type V = Seq<SpecPacketField>;

    open spec fn view(&self) -> Seq<SpecPacketField> {
        vec_view(self.field_vector@)
    }
}

impl View for PacketParserCondition {
    type V = SpecParserCondition;

    open spec fn view(&self) -> SpecParserCondition {
        match self {
            PacketParserCondition::ParserCondition(id, v) => SpecParserCondition::ParserCondition(id.id_name@, v.value),
            PacketParserCondition::Empty() => SpecParserCondition::Empty,
        }
    }
}

impl View for Packet {
    type V = SpecPacket;

    open spec fn view(&self) -> SpecPacket {
        SpecPacket {
            packet_id: self.packet_id.id_name@,
            packet_base: self.packet_base.id_name@,
            packet_fields: self.packet_fields@,
            packet_parser_condition: self.packet_parser_condition@,
        }
    }
}

impl View for Packets {
    type V = Seq<SpecPacket>;

    open spec fn view(&self) -> Seq<SpecPacket> {
        vec_view(self.packet_vector@)
    }
}

impl View for Snippet {
    type V = SpecSnippet;

    open spec fn view(&self) -> SpecSnippet {
        SpecSnippet {
            snippet_id: self.snippet_id.id_name@,
            device_id: self.device_id.id_name@,
            variable_decls: self.variable_decls@,
            ifblocks: self.ifblocks@,
        }
    }
}

impl View for Snippets {
    type V = Seq<SpecSnippet>;

    open spec fn view(&self) -> Seq<SpecSnippet> {
        vec_view(self.snippet_vector@)
    }
}

impl View for VariablePair {
    type V = (Seq<char>, Seq<char>);

    open spec fn view(&self) -> (Seq<char>, Seq<char>) {
        (self.from_var.id_name@, self.to_var.id_name@)
    }
}

impl View for Connection {
    type V = SpecConnection;

    open spec fn view(&self) -> SpecConnection {
        SpecConnection {
            from_snippet: self.from_snippet.id_name@,
            to_snippet: self.to_snippet.id_name@,
            variable_pairs: vec_view(self.variable_pairs@),
        }
    }
}

impl View for Connections {
    type V = Seq<SpecConnection>;

    open spec fn view(&self) -> Seq<SpecConnection> {
        vec_view(self.connection_vector@)
    }
}

impl View for Prog {
    type V = SpecProg;

    open spec fn view(&self) -> SpecProg {
        SpecProg {
            globals: self.globals@,
            packets: self.packets@,
            snippets: self.snippets@,
            connections: self.connections@,
        }
    }
}

// ---------------------------------------------------------------------------------------------
// Rendering names and numbers as text
// ---------------------------------------------------------------------------------------------

pub open spec fn digit_char(d: nat) -> char {
    ('0' as nat + d) as char
}

/// The decimal spelling of `n`, without leading zeros.
pub open spec fn decimal_string(n: nat) -> Seq<char>
    decreases n,
{
    if n < 10 {
        seq![digit_char(n)]
    } else {
        decimal_string(n / 10).push(digit_char(n % 10))
    }
}

/// The decimal spelling of a number.
pub fn u64_to_string(n: u64) -> (s: String)
    ensures s@ == decimal_string(n as nat),
{
    // digits from least to most significant
    let mut digits: Vec<char> = Vec::new();
    let mut m: u64 = n;
    loop
        invariant_except_break
            decimal_string(n as nat) == decimal_string(m as nat) + digits@.reverse(),
        ensures
            decimal_string(n as nat) == digits@.reverse(),
        decreases m,
    {
        let d: u64 = m % 10;
        let c: char = ((('0' as u64) + d) as u8) as char;
        assert(c == digit_char(d as nat)) by {
            assert(d < 10);
        }
        if m < 10 {
            digits.push(c);
            assert(decimal_string(n as nat) =~= digits@.reverse()) by {
                assert(digits@.reverse() =~= seq![c] + digits@.drop_last().reverse());
            }
            break;
        }
        let ghost old_digits = digits@;
        digits.push(c);
        assert(digits@.reverse() =~= seq![c] + old_digits.reverse());
        assert(decimal_string(m as nat) == decimal_string((m / 10) as nat).push(c));
        m = m / 10;
        assert(decimal_string(n as nat) =~= decimal_string(m as nat) + digits@.reverse());
    }
    let mut s = String::new();
    let mut i: usize = digits.len();
    assert(digits@.subrange(0, i as int) =~= digits@);
    assert(s@ + digits@.subrange(0, i as int).reverse() =~= digits@.reverse());
    while i > 0
        invariant
            i <= digits@.len(),
            s@ + digits@.subrange(0, i as int).reverse() == decimal_string(n as nat),
        decreases i,
    {
        i = i - 1;
        let ghost before = s@;
        push_char(&mut s, digits[i]);
        assert(digits@.subrange(0, i + 1).reverse() =~= seq![digits@[i as int]] + digits@.subrange(0, i as int).reverse());
        assert(s@ + digits@.subrange(0, i as int).reverse() =~= before + digits@.subrange(0, i + 1).reverse());
    }
    assert(s@ =~= s@ + digits@.subrange(0, 0).reverse());
    s
}

/// The decimal spelling of a number.
pub fn u32_to_string(n: u32) -> (s: String)
    ensures s@ == decimal_string(n as nat),
{
    u64_to_string(n as u64)
}

impl Identifier {
    pub fn get_str(&self) -> (s: &str)
        ensures s@ == self.id_name@,
    {
        self.id_name.as_str()
    }
}

impl Value {
    pub fn get_string(&self) -> (s: String)
        ensures s@ == decimal_string(self.value as nat),
    {
        u32_to_string(self.value)
    }
}

/// The text of an operand: its name, address or number.
pub open spec fn operand_text(o: SpecOperand) -> Seq<char>
    decreases o,
{
    match o {
        SpecOperand::Value(v) => decimal_string(v as nat),
        SpecOperand::LValue(l) => lvalue_text(l),
    }
}

/// The text of an lvalue: `x`, `x [ i ] ` or `x . f`.
pub open spec fn lvalue_text(l: SpecLValue) -> Seq<char>
    decreases l,
{
    match l {
        SpecLValue::Scalar(id) => id,
        SpecLValue::Array(id, addr) => id + seq![' ', '[', ' '] + operand_text(*addr) + seq![' ', ']', ' '],
        SpecLValue::Field(id, f) => id + seq![' ', '.', ' '] + f,
    }
}

impl Operand {
    pub open spec fn spec_is_scalar(&self) -> bool {
        self matches Operand::LValue(LValue::Scalar(_))
    }

    pub fn is_scalar(&self) -> (b: bool)
        ensures b == self.spec_is_scalar(),
    {
        match self {
            Operand::LValue(LValue::Scalar(_)) => true,
            _ => false,
        }
    }

    pub fn is_val(&self) -> (b: bool)
        ensures b == !self.spec_is_scalar(),
    {
        !self.is_scalar()
    }

    /// The name of a scalar operand.
    pub fn get_id(&self) -> (s: &str)
        requires self.spec_is_scalar(),
        ensures self matches Operand::LValue(LValue::Scalar(id)) && s@ == id.id_name@,
    {
        match self {
            Operand::LValue(LValue::Scalar(id)) => id.get_str(),
            _ => "",
        }
    }

    /// The decimal text of a value operand.
    pub fn get_val(&self) -> (s: String)
        requires self is Value,
        ensures self matches Operand::Value(v) && s@ == decimal_string(v.value as nat),
    {
        match self {
            Operand::Value(v) => v.get_string(),
            _ => String::new(),
        }
    }

    pub fn get_string(&self) -> (s: String)
        ensures s@ == operand_text(self@),
    {
        match self {
            Operand::Value(v) => v.get_string(),
            Operand::LValue(l) => l.get_string(),
        }
    }
}

impl LValue {
    pub fn get_string(&self) -> (s: String)
        ensures s@ == lvalue_text(self@),
        decreases self,
    {
        match self {
            LValue::Scalar(id) => id.id_name.clone(),
            LValue::Array(id, address) => {
                let mut s = id.id_name.clone();
                s.append(" [ ");
                let a = match &**address {
                    Operand::Value(v) => v.get_string(),
                    Operand::LValue(l) => l.get_string(),
                };
                s.append(a.as_str());
                s.append(" ] ");
                proof {
                    reveal_strlit(" [ ");
                    reveal_strlit(" ] ");
                }
                assert(s@ =~= lvalue_text(self@));
                s
            },
            LValue::Field(id, field_name) => {
                let mut s = id.id_name.clone();
                s.append(" . ");
                s.append(field_name.get_str());
                proof {
                    reveal_strlit(" . ");
                }
                assert(s@ =~= lvalue_text(self@));
                s
            },
        }
    }
}

} // verus!
