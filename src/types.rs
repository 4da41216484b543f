//! The program tree that name resolution and constraint generation walk.
use vstd::prelude::*;
use vstd::string::StrSliceExecFns;

verus! {

/// A name as written in the source.
#[derive(Debug, Clone, PartialEq, Eq)]
pub struct Identifier {
    pub name: String,
}

impl Identifier {
    pub fn new(name: String) -> (r: Identifier)
        ensures
            r.name@ == name@,
    {
        Identifier { name }
    }

    /// A copy with the same name.
    pub fn duplicate(&self) -> (r: Identifier)
        ensures
            r == *self,
    {
        Identifier { name: self.name.clone() }
    }
}

/// The width and signedness of an integer type.
#[derive(Debug, Clone, Copy, PartialEq, Eq, Structural)]
pub enum IntegerType {
    U8,
    U16,
    U32,
    U64,
    U128,
    I8,
    I16,
    I32,
    I64,
    I128,
}

/// The declared type of a circuit member, a parameter or a result.
#[derive(Debug, Clone, PartialEq, Eq)]
pub enum Type {
    Address,
    Boolean,
    Field,
    Group,
    Integer(IntegerType),
    /// A circuit, by name.
    Circuit(Identifier),
    /// The circuit whose member this is.
    SelfType,
}

/// A member variable of a circuit.
#[derive(Debug, Clone, PartialEq, Eq)]
pub struct CircuitVariable {
    pub identifier: Identifier,
    pub type_: Type,
}

/// A circuit definition: its member variables and member functions.
#[derive(Debug, Clone, PartialEq, Eq)]
pub struct Circuit {
    pub circuit_name: Identifier,
    pub variables: Vec<CircuitVariable>,
    pub functions: Vec<Function>,
}

/// A declared parameter of a function.
#[derive(Debug, Clone, PartialEq, Eq)]
pub struct FunctionInput {
    pub identifier: Identifier,
    pub type_: Type,
}

/// An expression of a function body.
#[derive(Debug, Clone, PartialEq, Eq)]
pub enum Expression {
    Identifier(Identifier),
    Boolean(bool),
    Integer(IntegerType, u128),
    Field(String),
}

/// A statement of a function body.
#[derive(Debug, Clone, PartialEq, Eq)]
pub enum Statement {
    /// Ends the function with the value of the expression.
    Return(Expression),
    /// Constrains the two values to be equal.
    AssertEq(Expression, Expression),
}

/// A function definition.
#[derive(Debug, Clone, PartialEq, Eq)]
pub struct Function {
    pub identifier: Identifier,
    pub input: Vec<FunctionInput>,
    pub output: Option<Type>,
    pub statements: Vec<Statement>,
}

/// One imported name: `symbol`, or `symbol as alias`, or `*`.
#[derive(Debug, Clone, PartialEq, Eq)]
pub struct ImportSymbol {
    pub symbol: Identifier,
    pub alias: Option<Identifier>,
}

pub open spec fn star_name() -> Seq<char> {
    seq!['*']
}

impl ImportSymbol {
    pub open spec fn star(&self) -> bool {
        self.symbol.name@ == star_name()
    }

    /// Whether this imports every symbol of the module.
    pub fn is_star(&self) -> (r: bool)
        ensures
            r == self.star(),
    {
        let s: &str = self.symbol.name.as_str();
        let n: usize = s.unicode_len();
        if n != 1 {
            proof {
                assert(self.symbol.name@.len() != star_name().len());
            }
            return false;
        }
        let c = s.get_char(0);
        proof {
            assert(self.symbol.name@ =~= seq![c]);
        }
        c == '*'
    }

    /// The name under which the symbol is bound: its alias, else its own name.
    pub open spec fn bound_name(&self) -> Seq<char> {
        match self.alias {
            Some(a) => a.name@,
            None => self.symbol.name@,
        }
    }
}

/// An import statement: the package it names first, and each imported symbol
/// with the module it comes from.
#[derive(Debug, Clone, PartialEq, Eq)]
pub struct ImportStatement {
    pub package: Identifier,
    pub symbols: Vec<(String, ImportSymbol)>,
}

/// A parsed program.
#[derive(Debug, Clone, PartialEq, Eq)]
pub struct Program {
    pub name: Identifier,
    pub imports: Vec<ImportStatement>,
    pub circuits: Vec<Circuit>,
    pub functions: Vec<Function>,
}

/// A built-in package: the circuits it provides.
#[derive(Debug, Clone, PartialEq, Eq)]
pub struct CorePackage {
    pub name: Identifier,
    pub circuits: Vec<Circuit>,
}

/// A value given for one program input.
#[derive(Debug, Clone, PartialEq, Eq)]
pub enum InputValue {
    Address(String),
    Boolean(bool),
    Integer(IntegerType, u128),
    Field(String),
    Group(String),
}

/// The declared inputs of a program, section by section.
#[derive(Debug, Clone, PartialEq, Eq)]
pub struct Input {
    pub registers: Vec<FunctionInput>,
    pub record: Vec<FunctionInput>,
    pub state: Vec<FunctionInput>,
    pub state_leaf: Vec<FunctionInput>,
}

} // verus!
