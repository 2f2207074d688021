//! The abstract syntax tree: declared types, expressions, assignments,
//! parameters, blocks, functions and the top-level node. Each exec type has
//! a specification-level mirror (`ExpressionV`, `AstV`, ...) reached through
//! `View`, and a verified deep clone.

use vstd::prelude::*;

use crate::lexer::{Token, TokenV};
use crate::symbol_table::{entries_map, SymbolTable};

verus! {

/// A declared type. Equality is structural; a type has no internal state.
#[derive(Debug, Clone, Copy, PartialEq, Eq, Structural)]
pub enum Type {
    Void,
    Int,
    Float,
    Bool,
    StringType,
}

/// An exact rational number: the value of a float literal, and the value the
/// expression evaluator computes. A well-formed rational has `den > 0`.
#[derive(Debug, Clone, Copy, PartialEq, Eq, Structural)]
pub struct Rational {
    pub num: i64,
    pub den: i64,
}

/// Well-formedness of a rational: the denominator is positive.
pub open spec fn rational_wf(q: Rational) -> bool {
    q.den > 0
}

/// An expression tree. A `BinaryExpr` owns its two subtrees; the operator
/// token is one of the arithmetic operator tokens.
#[derive(Debug, PartialEq, Eq)]
pub enum Expression {
    Float(Rational),
    Int(i32),
    StringLit(String),
    Char(char),
    Boolean(bool),
    BinaryExpr(Box<Expression>, Token, Box<Expression>),
}

/// The specification-level value of an expression tree.
pub enum ExpressionV {
    Float(Rational),
    Int(i32),
    StringLit(Seq<char>),
    Char(char),
    Boolean(bool),
    BinaryExpr(Box<ExpressionV>, TokenV, Box<ExpressionV>),
}

/// The specification-level value of an expression.
pub open spec fn expr_v(e: Expression) -> ExpressionV
    decreases e,
{
    match e {
        Expression::Float(q) => ExpressionV::Float(q),
        Expression::Int(v) => ExpressionV::Int(v),
        Expression::StringLit(s) => ExpressionV::StringLit(s@),
        Expression::Char(c) => ExpressionV::Char(c),
        Expression::Boolean(b) => ExpressionV::Boolean(b),
        Expression::BinaryExpr(l, op, r) => ExpressionV::BinaryExpr(
            Box::new(expr_v(*l)),
            op@,
            Box::new(expr_v(*r)),
        ),
    }
}

impl View for Expression {
    type V = ExpressionV;

    open spec fn view(&self) -> ExpressionV {
        expr_v(*self)
    }
}

impl Clone for Expression {
    /// Cloning an expression copies the whole tree.
    fn clone(&self) -> (r: Self)
        ensures
            r == *self,
        decreases *self,
    {
        match self {
            Expression::Float(q) => Expression::Float(*q),
            Expression::Int(v) => Expression::Int(*v),
            Expression::StringLit(s) => Expression::StringLit(s.clone()),
            Expression::Char(c) => Expression::Char(*c),
            Expression::Boolean(b) => Expression::Boolean(*b),
            Expression::BinaryExpr(l, op, r) => Expression::BinaryExpr(
                Box::new((&**l).clone()),
                op.clone(),
                Box::new((&**r).clone()),
            ),
        }
    }
}

/// One `type name = expression;` statement.
#[derive(Debug, PartialEq, Eq)]
pub struct Assignment {
    pub var_type: Type,
    pub name: String,
    pub value: Expression,
}

/// The specification-level value of an assignment.
pub struct AssignmentV {
    pub var_type: Type,
    pub name: Seq<char>,
    pub value: ExpressionV,
}

impl View for Assignment {
    type V = AssignmentV;

    open spec fn view(&self) -> AssignmentV {
        AssignmentV { var_type: self.var_type, name: self.name@, value: self.value@ }
    }
}

impl Clone for Assignment {
    /// Cloning an assignment copies its name and its value expression.
    fn clone(&self) -> (r: Self)
        ensures
            r == *self,
    {
        Assignment {
            var_type: self.var_type,
            name: self.name.clone(),
            value: self.value.clone(),
        }
    }
}

impl Assignment {
    /// Builds the assignment node `var_type name = value;`.
    pub fn new(var_type: Type, name: String, value: Expression) -> (r: Self)
        ensures
            r == (Assignment { var_type, name, value }),
    {
        Self { var_type, name, value }
    }
}

/// One declared function parameter; parameters have no default value.
#[derive(Debug, PartialEq, Eq)]
pub struct Parameter {
    pub parameter_type: Type,
    pub name: String,
}

/// The specification-level value of a parameter.
pub struct ParameterV {
    pub parameter_type: Type,
    pub name: Seq<char>,
}

impl View for Parameter {
    type V = ParameterV;

    open spec fn view(&self) -> ParameterV {
        ParameterV { parameter_type: self.parameter_type, name: self.name@ }
    }
}

impl Clone for Parameter {
    /// Cloning a parameter copies its type and its name.
    fn clone(&self) -> (r: Self)
        ensures
            r == *self,
    {
        Parameter { parameter_type: self.parameter_type, name: self.name.clone() }
    }
}

impl Parameter {
    /// Builds a parameter node from its declared type and name.
    pub fn new(parameter_type: Type, name: String) -> (r: Self)
        ensures
            r == (Parameter { parameter_type, name }),
    {
        Self { parameter_type, name }
    }
}

/// A block: an ordered sequence of statements and the symbol table local to
/// the block. The table's lifetime equals the block's.
#[derive(Debug, PartialEq, Eq)]
pub struct Block {
    pub statements: Vec<Ast>,
    pub symbol_table: SymbolTable,
}

/// The specification-level value of a block.
pub struct BlockV {
    pub statements: Seq<AstV>,
    pub symbol_table: Map<Seq<char>, AstV>,
}

/// A function: name, ordered parameters, body block, and an optional return
/// type whose absence means void.
#[derive(Debug, PartialEq, Eq)]
pub struct Function {
    pub name: String,
    pub parameters: Vec<Parameter>,
    pub body: Block,
    pub return_type: Option<Type>,
}

/// The specification-level value of a function.
pub struct FunctionV {
    pub name: Seq<char>,
    pub parameters: Seq<ParameterV>,
    pub body: BlockV,
    pub return_type: Option<Type>,
}

/// A top-level node: an assignment or a function declaration.
#[derive(Debug, PartialEq, Eq)]
pub enum Ast {
    Assignment(Assignment),
    Function(Function),
}

/// The specification-level value of a top-level node.
pub enum AstV {
    Assignment(AssignmentV),
    Function(FunctionV),
}

/// The specification-level value of a top-level node.
pub open spec fn ast_v(a: Ast) -> AstV
    decreases a,
{
    match a {
        Ast::Assignment(x) => AstV::Assignment(x@),
        Ast::Function(f) => AstV::Function(function_v(f)),
    }
}

/// The specification-level value of a function node.
pub open spec fn function_v(f: Function) -> FunctionV
    decreases f,
{
    FunctionV {
        name: f.name@,
        parameters: f.parameters@.map_values(|p: Parameter| p@),
        body: block_v(f.body),
        return_type: f.return_type,
    }
}

/// The specification-level value of a block node.
pub open spec fn block_v(b: Block) -> BlockV
    decreases b,
{
    BlockV {
        statements: asts_v(b.statements@),
        symbol_table: entries_map(b.symbol_table.entries@),
    }
}

/// The specification-level values of a sequence of top-level nodes.
pub open spec fn asts_v(s: Seq<Ast>) -> Seq<AstV>
    decreases s,
{
    if s.len() == 0 {
        Seq::empty()
    } else {
        asts_v(s.drop_last()).push(ast_v(s.last()))
    }
}

impl View for Ast {
    type V = AstV;

    open spec fn view(&self) -> AstV {
        ast_v(*self)
    }
}

impl View for Function {
    type V = FunctionV;

    open spec fn view(&self) -> FunctionV {
        function_v(*self)
    }
}

impl View for Block {
    type V = BlockV;

    open spec fn view(&self) -> BlockV {
        block_v(*self)
    }
}

/// `asts_v` maps each element of the sequence through `ast_v`.
pub proof fn lemma_asts_v(s: Seq<Ast>)
    ensures
        asts_v(s).len() == s.len(),
        forall|i: int| 0 <= i < s.len() ==> asts_v(s)[i] == ast_v(s[i]),
    decreases s.len(),
{
    if s.len() > 0 {
        lemma_asts_v(s.drop_last());
    }
}

impl Clone for Ast {
    /// Cloning a node copies the whole tree; the copy has the same
    /// specification-level value.
    fn clone(&self) -> (r: Self)
        ensures
            r@ == self@,
        decreases *self,
    {
        match self {
            Ast::Assignment(x) => Ast::Assignment(x.clone()),
            Ast::Function(f) => Ast::Function(f.clone()),
        }
    }
}

impl Clone for Function {
    /// Cloning a function copies its parameters and its body; the copy has
    /// the same specification-level value.
    fn clone(&self) -> (r: Self)
        ensures
            r@ == self@,
        decreases *self,
    {
        let mut parameters: Vec<Parameter> = Vec::new();
        let mut i: usize = 0;
        while i < self.parameters.len()
            invariant
                0 <= i <= self.parameters.len(),
                parameters@.len() == i,
                forall|k: int| 0 <= k < i ==> parameters@[k] == self.parameters@[k],
            decreases self.parameters.len() - i,
        {
            parameters.push(self.parameters[i].clone());
            i += 1;
        }
        proof {
            assert(parameters@ =~= self.parameters@);
        }
        Function {
            name: self.name.clone(),
            parameters,
            body: self.body.clone(),
            return_type: self.return_type,
        }
    }
}

impl Clone for Block {
    /// Cloning a block copies its statements and its symbol table; the copy
    /// has the same specification-level value.
    fn clone(&self) -> (r: Self)
        ensures
            r@ == self@,
        decreases *self,
    {
        let mut statements: Vec<Ast> = Vec::new();
        let mut i: usize = 0;
        while i < self.statements.len()
            invariant
                0 <= i <= self.statements.len(),
                statements@.len() == i,
                forall|k: int| 0 <= k < i ==> ast_v(#[trigger] statements@[k])
                    == ast_v(self.statements@[k]),
            decreases self.statements.len() - i,
        {
            statements.push(self.statements[i].clone());
            i += 1;
        }
        proof {
            lemma_asts_v(statements@);
            lemma_asts_v(self.statements@);
            assert(asts_v(statements@) =~= asts_v(self.statements@));
        }
        Block { statements, symbol_table: self.symbol_table.clone() }
    }
}

impl Block {
    /// Builds a block node from its statements and its local symbol table.
    pub fn new(statements: Vec<Ast>, symbol_table: SymbolTable) -> (r: Self)
        ensures
            r@ == (BlockV {
                statements: asts_v(statements@),
                symbol_table: entries_map(symbol_table.entries@),
            }),
    {
        Self { statements, symbol_table }
    }
}

impl Function {
    /// Builds a function node from its name, parameters, body and optional
    /// return type.
    pub fn new(name: String, parameters: Vec<Parameter>, body: Block, return_type: Option<
        Type,
    >) -> (r: Self)
        ensures
            r@ == (FunctionV {
                name: name@,
                parameters: parameters@.map_values(|p: Parameter| p@),
                body: body@,
                return_type,
            }),
    {
        Self { name, parameters, body, return_type }
    }
}

} // verus!
