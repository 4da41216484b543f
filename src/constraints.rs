//! Constraint generation: binds the inputs of a program's `main` function to
//! constraint-system variables and walks its body, recording constraints in order.
use vstd::prelude::*;
use vstd::string::StringExecFns;
use crate::assoc::{keys_unique, lookup, lemma_lookup_at, find_key, insert_key};
use crate::types::{Identifier, IntegerType, Type, Circuit, Function, FunctionInput, Expression, Statement, Program, InputValue};

verus! {

/// The kind of a primitive value in the constraint system.
#[derive(Debug, Clone, Copy, PartialEq, Eq, Structural)]
pub enum ValueKind {
    Address,
    Boolean,
    Integer(IntegerType),
    Field,
    Group,
    /// An instance of a circuit.
    Circuit,
}

/// A failure of the underlying constraint-system primitives.
#[derive(Debug, Clone, Copy, PartialEq, Eq, Structural)]
pub enum SynthesisError {
    AssignmentMissing,
    DivisionByZero,
    Unsatisfiable,
    PolynomialDegreeTooLarge,
    UnexpectedIdentity,
    MalformedVerifyingKey,
    UnconstrainedVariable,
}

/// Why a field-element operation failed.
#[derive(Debug, Clone, PartialEq, Eq)]
pub enum FieldError {
    /// A value that is not a field element was given for a field parameter.
    Invalid(String),
    /// Inversion of an element that has no inverse.
    NoInverse(String),
    SynthesisError(SynthesisError),
}

impl From<SynthesisError> for FieldError {
    fn from(error: SynthesisError) -> (r: FieldError) {
        FieldError::SynthesisError(error)
    }
}

impl vstd::std_specs::convert::FromSpecImpl<SynthesisError> for FieldError {
    open spec fn obeys_from_spec() -> bool {
        true
    }

    open spec fn from_spec(error: SynthesisError) -> FieldError {
        FieldError::SynthesisError(error)
    }
}

/// Why constraint generation failed.
#[derive(Debug, Clone, PartialEq, Eq)]
pub enum CompilerError {
    /// The program has no definition named `main`.
    NoMain,
    /// The definition named `main` is not a function.
    NoMainFunction,
    /// The number of given inputs (second) differs from the number of parameters (first).
    ArgumentsLength(usize, usize),
    /// A value of the wrong kind for a parameter, or a parameter typed `Self`.
    InvalidInput(String),
    Field(FieldError),
    /// An expression names no parameter.
    UndefinedVariable(String),
    /// The two sides of an equality have different kinds.
    TypeMismatch,
}

/// A value computed while walking a program.
#[derive(Debug, Clone, PartialEq, Eq)]
pub enum ConstrainedValue {
    /// A variable of the constraint system, by the name it was allocated under.
    Variable(ValueKind, String),
    Boolean(bool),
    Integer(IntegerType, u128),
    Field(String),
    /// What a function that ends without `return` yields.
    Unit,
    /// A function definition, with the circuit it belongs to if any.
    Function(Option<Identifier>, Function),
    /// A circuit definition.
    CircuitDefinition(Circuit),
}

/// One recorded constraint.
#[derive(Debug, Clone, PartialEq, Eq)]
pub enum Constraint {
    /// A variable of the given kind; `None` for a private witness, else its value.
    Alloc(String, ValueKind, Option<InputValue>),
    /// A private instance of the named circuit (second) under the given name (first).
    AllocCircuit(String, String),
    /// The two values are equal.
    Equal(ConstrainedValue, ConstrainedValue),
}

/// The sink that constraints are recorded in, in order.
#[derive(Debug, Clone)]
pub struct ConstraintSystem {
    constraints: Vec<Constraint>,
}

impl ConstraintSystem {
    pub closed spec fn view(&self) -> Seq<Constraint> {
        self.constraints@
    }

    /// An empty constraint system.
    pub fn new() -> (r: ConstraintSystem)
        ensures
            r.view().len() == 0,
    {
        ConstraintSystem { constraints: Vec::new() }
    }

    /// The constraints recorded so far, in order.
    pub fn constraints(&self) -> (r: &Vec<Constraint>)
        ensures
            r@ == self.view(),
    {
        &self.constraints
    }

    fn enforce(&mut self, c: Constraint)
        ensures
            final(self).view() == old(self).view().push(c),
    {
        self.constraints.push(c);
    }
}

/// The kind of variable a parameter of type `t` is allocated as.
pub open spec fn type_kind(t: Type) -> Option<ValueKind> {
    match t {
        Type::Address => Some(ValueKind::Address),
        Type::Boolean => Some(ValueKind::Boolean),
        Type::Integer(w) => Some(ValueKind::Integer(w)),
        Type::Field => Some(ValueKind::Field),
        Type::Group => Some(ValueKind::Group),
        Type::Circuit(_) => Some(ValueKind::Circuit),
        Type::SelfType => None,
    }
}

pub open spec fn input_value_kind(v: InputValue) -> ValueKind {
    match v {
        InputValue::Address(_) => ValueKind::Address,
        InputValue::Boolean(_) => ValueKind::Boolean,
        InputValue::Integer(w, _) => ValueKind::Integer(w),
        InputValue::Field(_) => ValueKind::Field,
        InputValue::Group(_) => ValueKind::Group,
    }
}

pub open spec fn value_kind(v: ConstrainedValue) -> Option<ValueKind> {
    match v {
        ConstrainedValue::Variable(k, _) => Some(k),
        ConstrainedValue::Boolean(_) => Some(ValueKind::Boolean),
        ConstrainedValue::Integer(w, _) => Some(ValueKind::Integer(w)),
        ConstrainedValue::Field(_) => Some(ValueKind::Field),
        _ => None,
    }
}

/// The constraint that allocates `input` with `value`.
pub open spec fn allocation(input: FunctionInput, value: Option<InputValue>) -> Result<Constraint, CompilerError> {
    match input.type_ {
        Type::Circuit(c) => match value {
            None => Ok(Constraint::AllocCircuit(input.identifier.name, c.name)),
            Some(_) => Err(CompilerError::InvalidInput(input.identifier.name)),
        },
        _ => allocation_of_kind(input, value),
    }
}

/// The constraint that allocates `input`, of a type other than a circuit, with `value`.
pub open spec fn allocation_of_kind(input: FunctionInput, value: Option<InputValue>) -> Result<Constraint, CompilerError> {
    match type_kind(input.type_) {
        None => Err(CompilerError::InvalidInput(input.identifier.name)),
        Some(k) => match value {
            Some(v) => if input_value_kind(v) == k {
                Ok(Constraint::Alloc(input.identifier.name, k, value))
            } else if k == ValueKind::Field {
                Err(CompilerError::Field(FieldError::Invalid(input.identifier.name)))
            } else {
                Err(CompilerError::InvalidInput(input.identifier.name))
            },
            None => Ok(Constraint::Alloc(input.identifier.name, k, value)),
        },
    }
}

/// The allocations for `inputs` with `values`, in order, up to the first failure.
pub open spec fn allocations(inputs: Seq<FunctionInput>, values: Seq<Option<InputValue>>) -> (Seq<Constraint>, Option<CompilerError>)
    decreases inputs.len(),
{
    if inputs.len() == 0 || values.len() == 0 {
        (seq![], None)
    } else {
        match allocation(inputs[0], values[0]) {
            Err(e) => (seq![], Some(e)),
            Ok(c) => {
                let rest = allocations(inputs.skip(1), values.skip(1));
                (seq![c] + rest.0, rest.1)
            },
        }
    }
}

/// The first parameter named `k`.
pub open spec fn find_input(inputs: Seq<FunctionInput>, k: Seq<char>) -> Option<FunctionInput>
    decreases inputs.len(),
{
    if inputs.len() == 0 {
        None
    } else if inputs[0].identifier.name@ == k {
        Some(inputs[0])
    } else {
        find_input(inputs.skip(1), k)
    }
}

/// The value of `e` in a body whose parameters are `inputs`.
pub open spec fn evaluation(inputs: Seq<FunctionInput>, e: Expression) -> Result<ConstrainedValue, CompilerError> {
    match e {
        Expression::Identifier(id) => match find_input(inputs, id.name@) {
            Some(i) => match type_kind(i.type_) {
                Some(k) => Ok(ConstrainedValue::Variable(k, id.name)),
                None => Err(CompilerError::UndefinedVariable(id.name)),
            },
            None => Err(CompilerError::UndefinedVariable(id.name)),
        },
        Expression::Boolean(b) => Ok(ConstrainedValue::Boolean(b)),
        Expression::Integer(w, n) => Ok(ConstrainedValue::Integer(w, n)),
        Expression::Field(s) => Ok(ConstrainedValue::Field(s)),
    }
}

/// The constraints that `statements` record, in order, and the value they end with.
pub open spec fn execution(inputs: Seq<FunctionInput>, statements: Seq<Statement>) -> (Seq<Constraint>, Result<ConstrainedValue, CompilerError>)
    decreases statements.len(),
{
    if statements.len() == 0 {
        (seq![], Ok(ConstrainedValue::Unit))
    } else {
        match statements[0] {
            Statement::Return(e) => (seq![], evaluation(inputs, e)),
            Statement::AssertEq(a, b) => match evaluation(inputs, a) {
                Err(e) => (seq![], Err(e)),
                Ok(x) => match evaluation(inputs, b) {
                    Err(e) => (seq![], Err(e)),
                    Ok(y) => if value_kind(x) is Some && value_kind(x) == value_kind(y) {
                        let rest = execution(inputs, statements.skip(1));
                        (seq![Constraint::Equal(x, y)] + rest.0, rest.1)
                    } else {
                        (seq![], Err(CompilerError::TypeMismatch))
                    },
                },
            },
        }
    }
}

/// The constraints that running `function` as the entry point with `values`
/// records, in order, and its result.
pub open spec fn main_execution(function: Function, values: Seq<Option<InputValue>>) -> (Seq<Constraint>, Result<ConstrainedValue, CompilerError>) {
    if values.len() != function.input@.len() {
        (seq![], Err(CompilerError::ArgumentsLength(function.input@.len() as usize, values.len() as usize)))
    } else {
        let a = allocations(function.input@, values);
        match a.1 {
            Some(e) => (a.0, Err(e)),
            None => {
                let b = execution(function.input@, function.statements@);
                (a.0 + b.0, b.1)
            },
        }
    }
}

pub open spec fn main_name() -> Seq<char> {
    seq!['m', 'a', 'i', 'n']
}

/// The name `inner` takes in the scope `outer`: `outer::inner`.
pub open spec fn scope_name(outer: Seq<char>, inner: Seq<char>) -> Seq<char> {
    outer + seq![':', ':'] + inner
}

/// The last function of `fs` whose name in scope `outer` is `k`.
pub open spec fn last_function(fs: Seq<Function>, outer: Seq<char>, k: Seq<char>) -> Option<Function>
    decreases fs.len(),
{
    if fs.len() == 0 {
        None
    } else if scope_name(outer, fs.last().identifier.name@) == k {
        Some(fs.last())
    } else {
        last_function(fs.drop_last(), outer, k)
    }
}

/// The last circuit of `cs` whose name in scope `outer` is `k`.
pub open spec fn last_circuit(cs: Seq<Circuit>, outer: Seq<char>, k: Seq<char>) -> Option<Circuit>
    decreases cs.len(),
{
    if cs.len() == 0 {
        None
    } else if scope_name(outer, cs.last().circuit_name.name@) == k {
        Some(cs.last())
    } else {
        last_circuit(cs.drop_last(), outer, k)
    }
}

/// What the qualified name `k` stands for among the definitions of
/// `program`: functions are stored after circuits, so a function wins.
pub open spec fn definition(program: Program, k: Seq<char>) -> Option<ConstrainedValue> {
    match last_function(program.functions@, program.name.name@, k) {
        Some(f) => Some(ConstrainedValue::Function(None, f)),
        None => match last_circuit(program.circuits@, program.name.name@, k) {
            Some(c) => Some(ConstrainedValue::CircuitDefinition(c)),
            None => None,
        },
    }
}

/// The constraints that generation for `program` with `values` records, in
/// order, and its result.
pub open spec fn generation(program: Program, values: Seq<Option<InputValue>>) -> (Seq<Constraint>, Result<ConstrainedValue, CompilerError>) {
    match definition(program, scope_name(program.name.name@, main_name())) {
        Some(ConstrainedValue::Function(_, f)) => main_execution(f, values),
        Some(_) => (seq![], Err(CompilerError::NoMainFunction)),
        None => (seq![], Err(CompilerError::NoMain)),
    }
}

/// Builds the name `inner` takes in the scope `outer`.
pub fn new_scope(outer: &String, inner: &String) -> (r: String)
    ensures
        r@ == scope_name(outer@, inner@),
{
    proof {
        reveal_strlit("::");
    }
    let r = outer.clone().concat("::").concat(inner.as_str());
    assert(r@ =~= scope_name(outer@, inner@));
    r
}

/// Every definition of a compiled unit under its scope-qualified name.
#[derive(Debug, Clone)]
pub struct ConstrainedProgram {
    identifiers: Vec<(String, ConstrainedValue)>,
}

impl ConstrainedProgram {
    pub closed spec fn wf(&self) -> bool {
        keys_unique(self.identifiers@)
    }

    /// The value stored under `k`.
    pub closed spec fn value(&self, k: Seq<char>) -> Option<ConstrainedValue> {
        lookup(self.identifiers@, k)
    }

    /// An empty namespace.
    pub fn new() -> (r: ConstrainedProgram)
        ensures
            r.wf(),
            forall|k: Seq<char>| #[trigger] r.value(k) is None,
    {
        ConstrainedProgram { identifiers: Vec::new() }
    }

    /// Stores `value` under `name`, replacing what was there.
    pub fn store(&mut self, name: String, value: ConstrainedValue)
        requires
            old(self).wf(),
        ensures
            final(self).wf(),
            forall|k: Seq<char>| #[trigger] final(self).value(k) == if k == name@ {
                Some(value)
            } else {
                old(self).value(k)
            },
    {
        insert_key(&mut self.identifiers, name, value);
    }

    /// The value stored under `name`.
    pub fn get(&self, name: &String) -> (r: Option<&ConstrainedValue>)
        requires
            self.wf(),
        ensures
            match r {
                Some(v) => self.value(name@) == Some(*v),
                None => self.value(name@) is None,
            },
    {
        match find_key(&self.identifiers, name) {
            Some(i) => {
                proof {
                    lemma_lookup_at(self.identifiers@, i as int);
                }
                Some(&self.identifiers[i].1)
            },
            None => None,
        }
    }

    /// Stores every circuit, then every function, of `program` under its
    /// name in the program's scope. Records no constraint.
    pub fn resolve_definitions(&mut self, program: Program)
        requires
            old(self).wf(),
        ensures
            final(self).wf(),
            forall|k: Seq<char>| #[trigger] final(self).value(k) == match definition(program, k) {
                Some(v) => Some(v),
                None => old(self).value(k),
            },
    {
        let ghost start = *self;
        let ghost cs = program.circuits@;
        let ghost fs = program.functions@;
        let ghost pn = program.name.name@;
        let scope = program.name.name;
        let mut circuits = program.circuits;
        let ghost mut i: int = 0;
        assert(cs.skip(0) =~= cs);
        while circuits.len() > 0
            invariant
                self.wf(),
                scope@ == pn,
                0 <= i,
                i + circuits@.len() == cs.len(),
                circuits@ == cs.skip(i),
                forall|k: Seq<char>| #[trigger] self.value(k) == match last_circuit(cs.take(i), pn, k) {
                    Some(c) => Some(ConstrainedValue::CircuitDefinition(c)),
                    None => start.value(k),
                },
            decreases circuits.len(),
        {
            let circuit = circuits.remove(0);
            assert(circuit == cs[i]);
            assert(circuits@ =~= cs.skip(i + 1));
            assert(cs.take(i + 1).drop_last() =~= cs.take(i));
            assert(cs.take(i + 1).last() == cs[i]);
            let name = new_scope(&scope, &circuit.circuit_name.name);
            self.store(name, ConstrainedValue::CircuitDefinition(circuit));
            proof {
                i = i + 1;
            }
        }
        assert(cs.take(i) =~= cs);
        let ghost mid = *self;
        let mut functions = program.functions;
        let ghost mut j: int = 0;
        assert(fs.skip(0) =~= fs);
        while functions.len() > 0
            invariant
                self.wf(),
                scope@ == pn,
                0 <= j,
                j + functions@.len() == fs.len(),
                functions@ == fs.skip(j),
                forall|k: Seq<char>| #[trigger] self.value(k) == match last_function(fs.take(j), pn, k) {
                    Some(f) => Some(ConstrainedValue::Function(None, f)),
                    None => mid.value(k),
                },
            decreases functions.len(),
        {
            let function = functions.remove(0);
            assert(function == fs[j]);
            assert(functions@ =~= fs.skip(j + 1));
            assert(fs.take(j + 1).drop_last() =~= fs.take(j));
            assert(fs.take(j + 1).last() == fs[j]);
            let name = new_scope(&scope, &function.identifier.name);
            self.store(name, ConstrainedValue::Function(None, function));
            proof {
                j = j + 1;
            }
        }
        assert(fs.take(j) =~= fs);
    }
}

/// The kind of variable a parameter of type `t` is allocated as.
fn kind_of_type(t: &Type) -> (r: Option<ValueKind>)
    ensures
        r == type_kind(*t),
{
    match t {
        Type::Address => Some(ValueKind::Address),
        Type::Boolean => Some(ValueKind::Boolean),
        Type::Integer(w) => Some(ValueKind::Integer(*w)),
        Type::Field => Some(ValueKind::Field),
        Type::Group => Some(ValueKind::Group),
        Type::Circuit(_) => Some(ValueKind::Circuit),
        Type::SelfType => None,
    }
}

fn kind_of_input_value(v: &InputValue) -> (r: ValueKind)
    ensures
        r == input_value_kind(*v),
{
    match v {
        InputValue::Address(_) => ValueKind::Address,
        InputValue::Boolean(_) => ValueKind::Boolean,
        InputValue::Integer(w, _) => ValueKind::Integer(*w),
        InputValue::Field(_) => ValueKind::Field,
        InputValue::Group(_) => ValueKind::Group,
    }
}

fn kind_of_value(v: &ConstrainedValue) -> (r: Option<ValueKind>)
    ensures
        r == value_kind(*v),
{
    match v {
        ConstrainedValue::Variable(k, _) => Some(*k),
        ConstrainedValue::Boolean(_) => Some(ValueKind::Boolean),
        ConstrainedValue::Integer(w, _) => Some(ValueKind::Integer(*w)),
        ConstrainedValue::Field(_) => Some(ValueKind::Field),
        _ => None,
    }
}

/// The allocation constraint for `input` with `value`.
pub fn allocate_input(input: &FunctionInput, value: Option<InputValue>) -> (r: Result<Constraint, CompilerError>)
    ensures
        r == allocation(*input, value),
{
    let name = input.identifier.name.clone();
    if let Type::Circuit(c) = &input.type_ {
        return match value {
            None => Ok(Constraint::AllocCircuit(name, c.name.clone())),
            Some(_) => Err(CompilerError::InvalidInput(name)),
        };
    }
    match kind_of_type(&input.type_) {
        None => Err(CompilerError::InvalidInput(name)),
        Some(k) => {
            let matches_kind = match &value {
                Some(v) => kind_of_input_value(v) == k,
                None => true,
            };
            if matches_kind {
                Ok(Constraint::Alloc(name, k, value))
            } else if k == ValueKind::Field {
                Err(CompilerError::Field(FieldError::Invalid(name)))
            } else {
                Err(CompilerError::InvalidInput(name))
            }
        },
    }
}

/// The value of `e` in a body whose parameters are `inputs`.
pub fn evaluate_expression(inputs: &Vec<FunctionInput>, e: &Expression) -> (r: Result<ConstrainedValue, CompilerError>)
    ensures
        r == evaluation(inputs@, *e),
{
    match e {
        Expression::Identifier(id) => {
            let mut i: usize = 0;
            assert(inputs@.skip(0) =~= inputs@);
            while i < inputs.len()
                invariant
                    i <= inputs.len(),
                    find_input(inputs@, id.name@) == find_input(inputs@.skip(i as int), id.name@),
                    *e == Expression::Identifier(*id),
                decreases inputs.len() - i,
            {
                assert(inputs@.skip(i as int).skip(1) =~= inputs@.skip(i + 1));
                assert(inputs@.skip(i as int)[0] == inputs@[i as int]);
                if inputs[i].identifier.name == id.name {
                    assert(find_input(inputs@, id.name@) == Some(inputs@[i as int]));
                    let name = id.name.clone();
                    assert(name == id.name);
                    let k = kind_of_type(&inputs[i].type_);
                    let r = match k {
                        Some(k) => Ok(ConstrainedValue::Variable(k, name)),
                        None => Err(CompilerError::UndefinedVariable(name)),
                    };
                    return r;
                }
                i = i + 1;
            }
            Err(CompilerError::UndefinedVariable(id.name.clone()))
        },
        Expression::Boolean(b) => Ok(ConstrainedValue::Boolean(*b)),
        Expression::Integer(w, n) => Ok(ConstrainedValue::Integer(*w, *n)),
        Expression::Field(s) => Ok(ConstrainedValue::Field(s.clone())),
    }
}

/// Allocates each parameter of `function` with the matching value of
/// `parameters`, then runs its body, recording constraints in `cs` in order.
pub fn enforce_main_function(cs: &mut ConstraintSystem, function: &Function, parameters: Vec<Option<InputValue>>) -> (r: Result<ConstrainedValue, CompilerError>)
    ensures
        final(cs).view() == old(cs).view() + main_execution(*function, parameters@).0,
        r == main_execution(*function, parameters@).1,
{
    let ghost values = parameters@;
    if parameters.len() != function.input.len() {
        return Err(CompilerError::ArgumentsLength(function.input.len(), parameters.len()));
    }
    let ghost start = cs.view();
    let mut remaining = parameters;
    let mut i: usize = 0;
    assert(function.input@.skip(0) =~= function.input@);
    assert(values.skip(0) =~= values);
    assert(cs.view().skip(start.len() as int) + allocations(function.input@, values).0 =~= allocations(function.input@, values).0);
    assert(cs.view().take(start.len() as int) =~= start);
    while i < function.input.len()
        invariant
            values.len() == function.input@.len(),
            i <= function.input.len(),
            remaining@ == values.skip(i as int),
            values == parameters@,
            allocations(function.input@, values) == {
                let rest = allocations(function.input@.skip(i as int), values.skip(i as int));
                (cs.view().skip(start.len() as int) + rest.0, rest.1)
            },
            cs.view().len() >= start.len(),
            cs.view().take(start.len() as int) == start,
            start == old(cs).view(),
        decreases function.input.len() - i,
    {
        assert(function.input@.skip(i as int).skip(1) =~= function.input@.skip(i + 1));
        assert(values.skip(i as int).skip(1) =~= values.skip(i + 1));
        let value = remaining.remove(0);
        assert(remaining@ =~= values.skip(i + 1));
        let ghost before = cs.view();
        match allocate_input(&function.input[i], value) {
            Ok(c) => {
                cs.enforce(c);
                assert(cs.view().skip(start.len() as int) =~= before.skip(start.len() as int).push(c));
                assert(cs.view().take(start.len() as int) =~= start);
            },
            Err(e) => {
                assert(cs.view() =~= start + cs.view().skip(start.len() as int));
                assert(allocations(function.input@.skip(i as int), values.skip(i as int)) == (Seq::<Constraint>::empty(), Some(e)));
                assert(cs.view().skip(start.len() as int) + Seq::<Constraint>::empty() =~= cs.view().skip(start.len() as int));
                assert(allocations(function.input@, values).0 =~= cs.view().skip(start.len() as int));
                assert(cs.view() =~= start + allocations(function.input@, values).0);
                return Err(e);
            },
        }
        i = i + 1;
    }
    assert(function.input@.skip(i as int).len() == 0);
    assert(cs.view().skip(start.len() as int) + Seq::<Constraint>::empty() =~= cs.view().skip(start.len() as int));
    let ghost allocated = cs.view();
    assert(allocations(function.input@, values).0 =~= cs.view().skip(start.len() as int));
    assert(allocated =~= start + allocations(function.input@, values).0);
    assert(allocations(function.input@, values).1 is None);
    let mut j: usize = 0;
    assert(function.statements@.skip(0) =~= function.statements@);
    assert(cs.view().skip(allocated.len() as int) + execution(function.input@, function.statements@).0 =~= execution(function.input@, function.statements@).0);
    assert(cs.view().take(allocated.len() as int) =~= allocated);
    while j < function.statements.len()
        invariant
            j <= function.statements.len(),
            cs.view().len() >= allocated.len(),
            cs.view().take(allocated.len() as int) == allocated,
            allocated == start + allocations(function.input@, values).0,
            allocations(function.input@, values).1 is None,
            values.len() == function.input@.len(),
            start == old(cs).view(),
            values == parameters@,
            execution(function.input@, function.statements@) == {
                let rest = execution(function.input@, function.statements@.skip(j as int));
                (cs.view().skip(allocated.len() as int) + rest.0, rest.1)
            },
        decreases function.statements.len() - j,
    {
        assert(function.statements@.skip(j as int).skip(1) =~= function.statements@.skip(j + 1));
        let ghost before = cs.view();
        assert(before.skip(allocated.len() as int) + Seq::<Constraint>::empty() =~= before.skip(allocated.len() as int));
        match &function.statements[j] {
            Statement::Return(e) => {
                let v = evaluate_expression(&function.input, e);
                assert(cs.view() =~= allocated + cs.view().skip(allocated.len() as int));
                assert(execution(function.input@, function.statements@).0 =~= cs.view().skip(allocated.len() as int));
                assert(cs.view() =~= old(cs).view() + main_execution(*function, values).0);
                return v;
            },
            Statement::AssertEq(a, b) => {
                let x = match evaluate_expression(&function.input, a) {
                    Ok(x) => x,
                    Err(e) => {
                        assert(cs.view() =~= allocated + cs.view().skip(allocated.len() as int));
                        assert(execution(function.input@, function.statements@).0 =~= cs.view().skip(allocated.len() as int));
                        assert(cs.view() =~= old(cs).view() + main_execution(*function, values).0);
                        return Err(e);
                    },
                };
                let y = match evaluate_expression(&function.input, b) {
                    Ok(y) => y,
                    Err(e) => {
                        assert(cs.view() =~= allocated + cs.view().skip(allocated.len() as int));
                        assert(execution(function.input@, function.statements@).0 =~= cs.view().skip(allocated.len() as int));
                        assert(cs.view() =~= old(cs).view() + main_execution(*function, values).0);
                        return Err(e);
                    },
                };
                let kx = kind_of_value(&x);
                let ky = kind_of_value(&y);
                let same = match (kx, ky) {
                    (Some(p), Some(q)) => p == q,
                    _ => false,
                };
                if !same {
                    assert(cs.view() =~= allocated + cs.view().skip(allocated.len() as int));
                    assert(execution(function.input@, function.statements@).0 =~= cs.view().skip(allocated.len() as int));
                    assert(cs.view() =~= old(cs).view() + main_execution(*function, values).0);
                    return Err(CompilerError::TypeMismatch);
                }
                let ghost c = Constraint::Equal(x, y);
                cs.enforce(Constraint::Equal(x, y));
                assert(cs.view().skip(allocated.len() as int) =~= before.skip(allocated.len() as int).push(c));
                assert(cs.view().take(allocated.len() as int) =~= allocated);
            },
        }
        j = j + 1;
    }
    assert(cs.view() =~= allocated + cs.view().skip(allocated.len() as int));
    assert(execution(function.input@, function.statements@).0 =~= cs.view().skip(allocated.len() as int));
    assert(cs.view() =~= old(cs).view() + main_execution(*function, values).0);
    Ok(ConstrainedValue::Unit)
}

/// Generates the constraints of `program`: stores its definitions under their
/// scope-qualified names, looks up `<program>::main`, and runs that function
/// as the entry point with one optional value per parameter (`None` for a
/// private witness), recording constraints in `cs` in order.
pub fn generate_constraints(cs: &mut ConstraintSystem, program: Program, parameters: Vec<Option<InputValue>>) -> (r: Result<ConstrainedValue, CompilerError>)
    ensures
        final(cs).view() == old(cs).view() + generation(program, parameters@).0,
        r == generation(program, parameters@).1,
{
    proof {
        reveal_strlit("main");
    }
    let ghost whole = program;
    let mut resolved_program = ConstrainedProgram::new();
    let main = "main".to_owned();
    assert(main@ =~= main_name());
    let main_function_name = new_scope(&program.name.name, &main);
    resolved_program.resolve_definitions(program);
    assert(cs.view() =~= cs.view() + Seq::<Constraint>::empty());
    match resolved_program.get(&main_function_name) {
        None => Err(CompilerError::NoMain),
        Some(ConstrainedValue::Function(_, function)) => enforce_main_function(cs, function, parameters),
        Some(_) => Err(CompilerError::NoMainFunction),
    }
}

proof fn lemma_scope_name_injective(outer: Seq<char>, a: Seq<char>, b: Seq<char>)
    ensures
        scope_name(outer, a) == scope_name(outer, b) ==> a == b,
{
    if scope_name(outer, a) == scope_name(outer, b) {
        assert(a =~= scope_name(outer, a).skip(outer.len() + 2int));
        assert(b =~= scope_name(outer, b).skip(outer.len() + 2int));
    }
}

proof fn lemma_no_function_named(fs: Seq<Function>, outer: Seq<char>, inner: Seq<char>)
    requires
        forall|i: int| 0 <= i < fs.len() ==> (#[trigger] fs[i]).identifier.name@ != inner,
    ensures
        last_function(fs, outer, scope_name(outer, inner)) is None,
    decreases fs.len(),
{
    if fs.len() > 0 {
        lemma_scope_name_injective(outer, fs.last().identifier.name@, inner);
        assert(fs.last() == fs[fs.len() - 1]);
        assert forall|i: int| 0 <= i < fs.drop_last().len() implies (#[trigger] fs.drop_last()[i]).identifier.name@ != inner by {
            assert(fs.drop_last()[i] == fs[i]);
        }
        lemma_no_function_named(fs.drop_last(), outer, inner);
    }
}

proof fn lemma_circuit_named(cs: Seq<Circuit>, outer: Seq<char>, inner: Seq<char>)
    ensures
        (last_circuit(cs, outer, scope_name(outer, inner)) is Some) == (exists|i: int| 0 <= i < cs.len() && (#[trigger] cs[i]).circuit_name.name@ == inner),
    decreases cs.len(),
{
    if cs.len() > 0 {
        lemma_scope_name_injective(outer, cs.last().circuit_name.name@, inner);
        lemma_circuit_named(cs.drop_last(), outer, inner);
        assert(cs.last() == cs[cs.len() - 1]);
        if exists|i: int| 0 <= i < cs.drop_last().len() && (#[trigger] cs.drop_last()[i]).circuit_name.name@ == inner {
            let i = choose|i: int| 0 <= i < cs.drop_last().len() && (#[trigger] cs.drop_last()[i]).circuit_name.name@ == inner;
            assert(cs[i] == cs.drop_last()[i]);
        }
        if exists|i: int| 0 <= i < cs.len() && (#[trigger] cs[i]).circuit_name.name@ == inner {
            let i = choose|i: int| 0 <= i < cs.len() && (#[trigger] cs[i]).circuit_name.name@ == inner;
            if i < cs.len() - 1 {
                assert(cs.drop_last()[i] == cs[i]);
            }
        }
    }
}

/// Generation is deterministic: what it records depends on the program and
/// the input values alone, not on what the sink held before, so two runs on
/// the same program and inputs record the same constraints in the same order.
pub proof fn lemma_generation_deterministic(
    program: Program,
    values: Seq<Option<InputValue>>,
    before1: Seq<Constraint>,
    after1: Seq<Constraint>,
    before2: Seq<Constraint>,
    after2: Seq<Constraint>,
)
    requires
        after1 == before1 + generation(program, values).0,
        after2 == before2 + generation(program, values).0,
    ensures
        after1.skip(before1.len() as int) == after2.skip(before2.len() as int),
{
    assert(after1.skip(before1.len() as int) =~= generation(program, values).0);
    assert(after2.skip(before2.len() as int) =~= generation(program, values).0);
}

/// Without a function named `main`, generation records nothing and fails:
/// with `NoMainFunction` when a circuit is named `main`, else with `NoMain`.
pub proof fn lemma_missing_main(program: Program, values: Seq<Option<InputValue>>)
    requires
        forall|i: int| 0 <= i < program.functions@.len() ==> (#[trigger] program.functions@[i]).identifier.name@ != main_name(),
    ensures
        generation(program, values).0.len() == 0,
        (exists|i: int| 0 <= i < program.circuits@.len() && (#[trigger] program.circuits@[i]).circuit_name.name@ == main_name())
            ==> generation(program, values).1 == Err::<ConstrainedValue, CompilerError>(CompilerError::NoMainFunction),
        !(exists|i: int| 0 <= i < program.circuits@.len() && (#[trigger] program.circuits@[i]).circuit_name.name@ == main_name())
            ==> generation(program, values).1 == Err::<ConstrainedValue, CompilerError>(CompilerError::NoMain),
{
    lemma_no_function_named(program.functions@, program.name.name@, main_name());
    lemma_circuit_named(program.circuits@, program.name.name@, main_name());
}

} // verus!
