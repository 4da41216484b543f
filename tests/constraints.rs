use leo_compiler::constraints::{
    generate_constraints, new_scope, CompilerError, ConstrainedProgram, ConstrainedValue, Constraint, ConstraintSystem, FieldError, SynthesisError,
    ValueKind,
};
use leo_compiler::types::{Circuit, IntegerType, Expression, Function, FunctionInput, Identifier, InputValue, Program, Statement, Type};

fn id(name: &str) -> Identifier {
    Identifier::new(name.to_string())
}

fn var(name: &str) -> Expression {
    Expression::Identifier(id(name))
}

fn main_function(inputs: Vec<(&str, Type)>, statements: Vec<Statement>) -> Function {
    Function {
        identifier: id("main"),
        input: inputs.into_iter().map(|(n, t)| FunctionInput { identifier: id(n), type_: t }).collect(),
        output: None,
        statements,
    }
}

fn program_with(functions: Vec<Function>, circuits: Vec<Circuit>) -> Program {
    Program { name: id("demo"), imports: Vec::new(), circuits, functions }
}

fn sample_program() -> Program {
    program_with(
        vec![main_function(
            vec![("a", Type::Field), ("b", Type::Boolean)],
            vec![
                Statement::AssertEq(var("a"), Expression::Field("5".to_string())),
                Statement::AssertEq(var("b"), Expression::Boolean(true)),
                Statement::Return(var("a")),
            ],
        )],
        vec![],
    )
}

#[test]
fn missing_main_fails_with_no_main() {
    let mut cs = ConstraintSystem::new();
    let program = program_with(vec![Function { identifier: id("helper"), input: vec![], output: None, statements: vec![] }], vec![]);
    assert_eq!(generate_constraints(&mut cs, program, vec![]), Err(CompilerError::NoMain));
    assert!(cs.constraints().is_empty());
}

#[test]
fn main_circuit_fails_with_no_main_function() {
    let mut cs = ConstraintSystem::new();
    let program = program_with(vec![], vec![Circuit { circuit_name: id("main"), variables: vec![], functions: vec![] }]);
    assert_eq!(generate_constraints(&mut cs, program, vec![]), Err(CompilerError::NoMainFunction));
    assert!(cs.constraints().is_empty());
}

#[test]
fn main_is_run_with_witness_and_public_inputs() {
    let mut cs = ConstraintSystem::new();
    let result = generate_constraints(&mut cs, sample_program(), vec![None, Some(InputValue::Boolean(true))]);
    assert_eq!(result, Ok(ConstrainedValue::Variable(ValueKind::Field, "a".to_string())));
    let expected = vec![
        Constraint::Alloc("a".to_string(), ValueKind::Field, None),
        Constraint::Alloc("b".to_string(), ValueKind::Boolean, Some(InputValue::Boolean(true))),
        Constraint::Equal(
            ConstrainedValue::Variable(ValueKind::Field, "a".to_string()),
            ConstrainedValue::Field("5".to_string()),
        ),
        Constraint::Equal(ConstrainedValue::Variable(ValueKind::Boolean, "b".to_string()), ConstrainedValue::Boolean(true)),
    ];
    assert_eq!(cs.constraints(), &expected);
}

#[test]
fn generation_is_deterministic() {
    let mut first = ConstraintSystem::new();
    let mut second = ConstraintSystem::new();
    let inputs = || vec![Some(InputValue::Field("3".to_string())), None];
    let r1 = generate_constraints(&mut first, sample_program(), inputs());
    let r2 = generate_constraints(&mut second, sample_program(), inputs());
    assert_eq!(r1, r2);
    assert_eq!(first.constraints(), second.constraints());
    assert_eq!(first.constraints().len(), 4);
}

#[test]
fn rerun_appends_same_constraints() {
    let mut cs = ConstraintSystem::new();
    let _ = generate_constraints(&mut cs, sample_program(), vec![None, None]);
    let once = cs.constraints().len();
    let _ = generate_constraints(&mut cs, sample_program(), vec![None, None]);
    let all = cs.constraints();
    assert_eq!(all.len(), 2 * once);
    assert_eq!(&all[..once], &all[once..]);
}

#[test]
fn wrong_number_of_inputs_fails() {
    let mut cs = ConstraintSystem::new();
    assert_eq!(generate_constraints(&mut cs, sample_program(), vec![None]), Err(CompilerError::ArgumentsLength(2, 1)));
    assert!(cs.constraints().is_empty());
}

#[test]
fn non_field_value_for_field_parameter_is_invalid() {
    let mut cs = ConstraintSystem::new();
    let result = generate_constraints(&mut cs, sample_program(), vec![Some(InputValue::Integer(IntegerType::U8, 7)), None]);
    assert_eq!(result, Err(CompilerError::Field(FieldError::Invalid("a".to_string()))));
    assert!(cs.constraints().is_empty());
}

#[test]
fn wrong_value_kind_for_boolean_parameter_is_invalid() {
    let mut cs = ConstraintSystem::new();
    let result = generate_constraints(&mut cs, sample_program(), vec![None, Some(InputValue::Group("1".to_string()))]);
    assert_eq!(result, Err(CompilerError::InvalidInput("b".to_string())));
    assert_eq!(cs.constraints().len(), 1);
}

#[test]
fn circuit_typed_parameter_is_allocated() {
    let mut cs = ConstraintSystem::new();
    let program = program_with(
        vec![main_function(vec![("p", Type::Circuit(id("Point"))), ("q", Type::Circuit(id("Point")))], vec![Statement::AssertEq(var("p"), var("q"))])],
        vec![],
    );
    assert_eq!(generate_constraints(&mut cs, program, vec![None, None]), Ok(ConstrainedValue::Unit));
    let expected = vec![
        Constraint::AllocCircuit("p".to_string(), "Point".to_string()),
        Constraint::AllocCircuit("q".to_string(), "Point".to_string()),
        Constraint::Equal(
            ConstrainedValue::Variable(ValueKind::Circuit, "p".to_string()),
            ConstrainedValue::Variable(ValueKind::Circuit, "q".to_string()),
        ),
    ];
    assert_eq!(cs.constraints(), &expected);
}

#[test]
fn integer_parameter_keeps_declared_width() {
    let mut cs = ConstraintSystem::new();
    let program = program_with(
        vec![main_function(vec![("n", Type::Integer(IntegerType::I64)), ("who", Type::Address)], vec![Statement::Return(var("n"))])],
        vec![],
    );
    let inputs = vec![Some(InputValue::Integer(IntegerType::I64, 12)), Some(InputValue::Address("aleo1xyz".to_string()))];
    assert_eq!(generate_constraints(&mut cs, program, inputs), Ok(ConstrainedValue::Variable(ValueKind::Integer(IntegerType::I64), "n".to_string())));
    assert_eq!(
        cs.constraints()[0],
        Constraint::Alloc("n".to_string(), ValueKind::Integer(IntegerType::I64), Some(InputValue::Integer(IntegerType::I64, 12)))
    );
    assert_eq!(cs.constraints()[1], Constraint::Alloc("who".to_string(), ValueKind::Address, Some(InputValue::Address("aleo1xyz".to_string()))));
}

#[test]
fn integer_value_of_other_width_is_invalid() {
    let mut cs = ConstraintSystem::new();
    let program = program_with(vec![main_function(vec![("n", Type::Integer(IntegerType::U8))], vec![])], vec![]);
    let result = generate_constraints(&mut cs, program, vec![Some(InputValue::Integer(IntegerType::U16, 3))]);
    assert_eq!(result, Err(CompilerError::InvalidInput("n".to_string())));
}

#[test]
fn self_typed_main_parameter_is_invalid() {
    let mut cs = ConstraintSystem::new();
    let program = program_with(vec![main_function(vec![("s", Type::SelfType)], vec![])], vec![]);
    assert_eq!(generate_constraints(&mut cs, program, vec![None]), Err(CompilerError::InvalidInput("s".to_string())));
}

#[test]
fn undefined_variable_fails() {
    let mut cs = ConstraintSystem::new();
    let program = program_with(vec![main_function(vec![], vec![Statement::Return(var("ghost"))])], vec![]);
    assert_eq!(generate_constraints(&mut cs, program, vec![]), Err(CompilerError::UndefinedVariable("ghost".to_string())));
}

#[test]
fn mismatched_equality_fails() {
    let mut cs = ConstraintSystem::new();
    let program = program_with(
        vec![main_function(
            vec![("x", Type::Integer(IntegerType::U32))],
            vec![Statement::AssertEq(var("x"), Expression::Boolean(false))],
        )],
        vec![],
    );
    assert_eq!(generate_constraints(&mut cs, program, vec![Some(InputValue::Integer(IntegerType::U32, 4))]), Err(CompilerError::TypeMismatch));
    assert_eq!(cs.constraints().len(), 1);
}

#[test]
fn body_without_return_yields_unit() {
    let mut cs = ConstraintSystem::new();
    let program = program_with(
        vec![main_function(vec![("g", Type::Group)], vec![Statement::AssertEq(var("g"), var("g"))])],
        vec![],
    );
    assert_eq!(generate_constraints(&mut cs, program, vec![None]), Ok(ConstrainedValue::Unit));
    assert_eq!(cs.constraints().len(), 2);
}

#[test]
fn statements_after_return_are_not_run() {
    let mut cs = ConstraintSystem::new();
    let program = program_with(
        vec![main_function(
            vec![],
            vec![Statement::Return(Expression::Integer(IntegerType::U8, 9)), Statement::AssertEq(var("missing"), var("missing"))],
        )],
        vec![],
    );
    assert_eq!(generate_constraints(&mut cs, program, vec![]), Ok(ConstrainedValue::Integer(IntegerType::U8, 9)));
    assert!(cs.constraints().is_empty());
}

#[test]
fn synthesis_error_converts_to_field_error() {
    let e: FieldError = FieldError::from(SynthesisError::Unsatisfiable);
    assert_eq!(e, FieldError::SynthesisError(SynthesisError::Unsatisfiable));
}

#[test]
fn new_scope_joins_with_double_colon() {
    assert_eq!(new_scope(&"demo".to_string(), &"main".to_string()), "demo::main");
}

#[test]
fn resolve_definitions_qualifies_names() {
    let mut resolved = ConstrainedProgram::new();
    let program = program_with(
        vec![main_function(vec![], vec![])],
        vec![Circuit { circuit_name: id("Point"), variables: vec![], functions: vec![] }],
    );
    resolved.resolve_definitions(program);
    assert!(matches!(resolved.get(&"demo::Point".to_string()), Some(ConstrainedValue::CircuitDefinition(c)) if c.circuit_name.name == "Point"));
    assert!(matches!(resolved.get(&"demo::main".to_string()), Some(ConstrainedValue::Function(None, f)) if f.identifier.name == "main"));
    assert!(resolved.get(&"Point".to_string()).is_none());
    assert!(resolved.get(&"other::main".to_string()).is_none());
}

#[test]
fn main_function_preferred_over_main_circuit() {
    let mut cs = ConstraintSystem::new();
    let program = program_with(
        vec![main_function(vec![], vec![Statement::Return(Expression::Boolean(false))])],
        vec![Circuit { circuit_name: id("main"), variables: vec![], functions: vec![] }],
    );
    assert_eq!(generate_constraints(&mut cs, program, vec![]), Ok(ConstrainedValue::Boolean(false)));
}
