use leo_compiler::symbol_table::{
    CircuitType, FunctionType, ImportParser, ParameterKind, ParameterType, ResolvedType, SymbolTable, SymbolTableError,
};
use leo_compiler::types::{
    Circuit, CircuitVariable, CorePackage, IntegerType, Function, FunctionInput, Identifier, ImportStatement, ImportSymbol, Input,
    Program, Type,
};

fn id(name: &str) -> Identifier {
    Identifier::new(name.to_string())
}

fn circuit(name: &str, variables: Vec<(&str, Type)>) -> Circuit {
    Circuit {
        circuit_name: id(name),
        variables: variables
            .into_iter()
            .map(|(n, t)| CircuitVariable { identifier: id(n), type_: t })
            .collect(),
        functions: Vec::new(),
    }
}

fn function(name: &str, inputs: Vec<(&str, Type)>, output: Option<Type>) -> Function {
    Function {
        identifier: id(name),
        input: inputs.into_iter().map(|(n, t)| FunctionInput { identifier: id(n), type_: t }).collect(),
        output,
        statements: Vec::new(),
    }
}

fn program(name: &str, circuits: Vec<Circuit>, functions: Vec<Function>) -> Program {
    Program { name: id(name), imports: Vec::new(), circuits, functions }
}

fn circuit_type(name: &str) -> CircuitType {
    CircuitType { identifier: id(name), variables: Vec::new(), functions: Vec::new() }
}

fn function_type(name: &str) -> FunctionType {
    FunctionType { identifier: id(name), inputs: Vec::new(), output: None }
}

fn entry(name: &str, kind: ParameterKind) -> ParameterType {
    ParameterType { identifier: id(name), kind }
}

#[test]
fn insert_name_returns_previous_entry() {
    let mut table = SymbolTable::new(None);
    assert!(table.insert_name("a".to_string(), entry("a", ParameterKind::Circuit)).is_none());
    let prior = table.insert_name("a".to_string(), entry("b", ParameterKind::Function)).unwrap();
    assert_eq!(prior.identifier.name, "a");
    assert_eq!(prior.kind, ParameterKind::Circuit);
    let now = table.get_variable(&"a".to_string()).unwrap();
    assert_eq!(now.identifier.name, "b");
    assert_eq!(now.kind, ParameterKind::Function);
}

#[test]
fn insert_circuit_name_rejects_duplicate() {
    let mut table = SymbolTable::new(None);
    assert!(table.insert_circuit_name("Foo".to_string(), entry("Foo", ParameterKind::Circuit)).is_ok());
    match table.insert_circuit_name("Foo".to_string(), entry("Foo", ParameterKind::Circuit)) {
        Err(SymbolTableError::DuplicateCircuit(p)) => assert_eq!(p.identifier.name, "Foo"),
        other => panic!("unexpected {:?}", other),
    }
}

#[test]
fn insert_function_name_rejects_duplicate() {
    let mut table = SymbolTable::new(None);
    assert!(table.insert_function_name("f".to_string(), entry("f", ParameterKind::Function)).is_ok());
    match table.insert_function_name("f".to_string(), entry("g", ParameterKind::Function)) {
        Err(SymbolTableError::DuplicateFunction(p)) => assert_eq!(p.identifier.name, "f"),
        other => panic!("unexpected {:?}", other),
    }
}

#[test]
fn duplicate_circuits_in_one_program_fail() {
    let mut table = SymbolTable::new(None);
    let circuits = vec![circuit("Point", vec![]), circuit("Line", vec![]), circuit("Point", vec![])];
    match table.check_duplicate_circuits(&circuits) {
        Err(SymbolTableError::DuplicateCircuit(p)) => {
            assert_eq!(p.identifier.name, "Point");
            assert_eq!(p.kind, ParameterKind::Circuit);
        }
        other => panic!("unexpected {:?}", other),
    }
}

#[test]
fn distinct_circuits_and_functions_are_registered() {
    let mut table = SymbolTable::new(None);
    let circuits = vec![circuit("Point", vec![]), circuit("Line", vec![])];
    let functions = vec![function("main", vec![], None), function("helper", vec![], None)];
    assert!(table.check_duplicate_circuits(&circuits).is_ok());
    assert!(table.check_duplicate_functions(&functions).is_ok());
    assert_eq!(table.get_variable(&"Line".to_string()).unwrap().kind, ParameterKind::Circuit);
    assert_eq!(table.get_variable(&"helper".to_string()).unwrap().kind, ParameterKind::Function);
    assert!(table.get_variable(&"other".to_string()).is_none());
}

#[test]
fn function_named_like_circuit_is_duplicate() {
    let mut table = SymbolTable::new(None);
    assert!(table.check_duplicate_circuits(&vec![circuit("Thing", vec![])]).is_ok());
    match table.check_duplicate_functions(&vec![function("Thing", vec![], None)]) {
        Err(SymbolTableError::DuplicateFunction(p)) => assert_eq!(p.kind, ParameterKind::Circuit),
        other => panic!("unexpected {:?}", other),
    }
}

#[test]
fn parent_scope_visible_from_child() {
    let mut parent = SymbolTable::new(None);
    parent.insert_circuit(id("Outer"), circuit_type("Outer"));
    parent.insert_function(id("outer_fn"), function_type("outer_fn"));
    let child = SymbolTable::new(Some(Box::new(parent)));
    assert_eq!(child.get_circuit(&"Outer".to_string()).unwrap().identifier.name, "Outer");
    assert_eq!(child.get_function(&"outer_fn".to_string()).unwrap().identifier.name, "outer_fn");
    assert!(child.get_variable(&"Outer".to_string()).is_none());
}

#[test]
fn sibling_scope_not_visible() {
    let mut parent_a = SymbolTable::new(None);
    parent_a.insert_circuit(id("Shared"), circuit_type("Shared"));
    let mut parent_b = SymbolTable::new(None);
    parent_b.insert_circuit(id("Shared"), circuit_type("Shared"));
    let mut sibling = SymbolTable::new(Some(Box::new(parent_a)));
    sibling.insert_circuit(id("Local"), circuit_type("Local"));
    sibling.insert_function(id("local_fn"), function_type("local_fn"));
    let other = SymbolTable::new(Some(Box::new(parent_b)));
    assert!(other.get_circuit(&"Local".to_string()).is_none());
    assert!(other.get_function(&"local_fn".to_string()).is_none());
    assert!(other.get_circuit(&"Shared".to_string()).is_some());
    assert!(sibling.get_circuit(&"Local".to_string()).is_some());
}

#[test]
fn child_entry_shadows_parent() {
    let mut parent = SymbolTable::new(None);
    parent.insert_function(id("f"), FunctionType { identifier: id("f"), inputs: vec![ResolvedType::Field], output: None });
    let mut child = SymbolTable::new(Some(Box::new(parent)));
    child.insert_function(id("f"), function_type("f"));
    assert_eq!(child.get_function(&"f".to_string()).unwrap().inputs.len(), 0);
}

#[test]
fn unknown_member_type_is_rejected() {
    let mut table = SymbolTable::new(None);
    let circuits = vec![circuit("A", vec![("b", Type::Circuit(id("B")))])];
    assert!(table.check_duplicate_circuits(&circuits).is_ok());
    match table.check_unknown_types_circuits(&circuits) {
        Err(SymbolTableError::UnknownType(name)) => assert_eq!(name, "B"),
        other => panic!("unexpected {:?}", other),
    }
}

#[test]
fn forward_references_resolve_after_names_pass() {
    let mut table = SymbolTable::new(None);
    let circuits = vec![
        circuit("A", vec![("b", Type::Circuit(id("B"))), ("me", Type::SelfType)]),
        circuit("B", vec![("a", Type::Circuit(id("A"))), ("x", Type::Field)]),
    ];
    assert!(table.check_duplicate_circuits(&circuits).is_ok());
    assert!(table.check_unknown_types_circuits(&circuits).is_ok());
    let a = table.get_circuit(&"A".to_string()).unwrap();
    assert_eq!(a.variables.len(), 2);
    assert_eq!(a.variables[0].identifier.name, "b");
    assert!(matches!(&a.variables[0].type_, ResolvedType::Circuit(n) if n.name == "B"));
    assert!(matches!(&a.variables[1].type_, ResolvedType::Circuit(n) if n.name == "A"));
    let b = table.get_circuit(&"B".to_string()).unwrap();
    assert!(matches!(b.variables[1].type_, ResolvedType::Field));
}

#[test]
fn function_types_are_built() {
    let mut table = SymbolTable::new(None);
    let circuits = vec![circuit("P", vec![])];
    let functions = vec![function("f", vec![("x", Type::Field), ("p", Type::Circuit(id("P")))], Some(Type::Boolean))];
    let prog = Program { name: id("demo"), imports: Vec::new(), circuits, functions };
    assert!(table.check_duplicate_circuits(&prog.circuits).is_ok());
    assert!(table.check_duplicate_functions(&prog.functions).is_ok());
    assert!(table.check_unknown_types_program(&prog).is_ok());
    let f = table.get_function(&"f".to_string()).unwrap();
    assert_eq!(f.inputs.len(), 2);
    assert!(matches!(f.inputs[0], ResolvedType::Field));
    assert!(matches!(&f.inputs[1], ResolvedType::Circuit(n) if n.name == "P"));
    assert!(matches!(f.output, Some(ResolvedType::Boolean)));
}

#[test]
fn self_type_outside_circuit_is_unknown() {
    let mut table = SymbolTable::new(None);
    let functions = vec![function("f", vec![("s", Type::SelfType)], None)];
    assert!(table.check_duplicate_functions(&functions).is_ok());
    assert!(matches!(table.check_unknown_types_functions(&functions), Err(SymbolTableError::UnknownType(_))));
}

#[test]
fn insert_input_registers_five_circuits_when_empty() {
    let mut table = SymbolTable::new(None);
    let input = Input { registers: Vec::new(), record: Vec::new(), state: Vec::new(), state_leaf: Vec::new() };
    assert!(table.insert_input(&input).is_ok());
    for name in ["registers", "record", "state", "state_leaf", "input"] {
        let c = table.get_circuit(&name.to_string()).unwrap();
        assert_eq!(c.identifier.name, name);
    }
    let input_type = table.get_circuit(&"input".to_string()).unwrap();
    let members: Vec<&str> = input_type.variables.iter().map(|v| v.identifier.name.as_str()).collect();
    assert_eq!(members, vec!["registers", "record", "state", "state_leaf"]);
    assert!(table.get_circuit(&"other".to_string()).is_none());
}

#[test]
fn insert_input_keeps_section_values() {
    let mut table = SymbolTable::new(None);
    let input = Input {
        registers: vec![FunctionInput { identifier: id("r0"), type_: Type::Integer(IntegerType::U32) }],
        record: Vec::new(),
        state: vec![FunctionInput { identifier: id("root"), type_: Type::Field }],
        state_leaf: Vec::new(),
    };
    assert!(table.insert_input(&input).is_ok());
    let registers = table.get_circuit(&"registers".to_string()).unwrap();
    assert_eq!(registers.variables.len(), 1);
    assert_eq!(registers.variables[0].identifier.name, "r0");
    assert!(matches!(registers.variables[0].type_, ResolvedType::Integer(IntegerType::U32)));
    assert_eq!(table.get_circuit(&"state".to_string()).unwrap().variables.len(), 1);
}

#[test]
fn insert_input_fails_on_unknown_section_type() {
    let mut table = SymbolTable::new(None);
    let input = Input {
        registers: Vec::new(),
        record: vec![FunctionInput { identifier: id("owner"), type_: Type::Circuit(id("Missing")) }],
        state: Vec::new(),
        state_leaf: Vec::new(),
    };
    match table.insert_input(&input) {
        Err(SymbolTableError::UnknownType(name)) => assert_eq!(name, "Missing"),
        other => panic!("unexpected {:?}", other),
    }
    assert!(table.get_circuit(&"input".to_string()).is_none());
}

#[test]
fn import_missing_symbol_fails() {
    let mut table = SymbolTable::new(None);
    let lib = program("lib", vec![circuit("Point", vec![])], vec![function("area", vec![], None)]);
    let symbol = ImportSymbol { symbol: id("missing"), alias: Some(id("m")) };
    match table.insert_import_symbol(&symbol, &lib) {
        Err(SymbolTableError::UnknownSymbol(s, p)) => {
            assert_eq!(s, "missing");
            assert_eq!(p, "lib");
        }
        other => panic!("unexpected {:?}", other),
    }
}

#[test]
fn import_aliased_symbol_binds_alias() {
    let mut table = SymbolTable::new(None);
    let lib = program("lib", vec![circuit("Point", vec![])], vec![function("area", vec![], None)]);
    let symbol = ImportSymbol { symbol: id("Point"), alias: Some(id("P")) };
    assert!(table.insert_import_symbol(&symbol, &lib).is_ok());
    let bound = table.get_variable(&"P".to_string()).unwrap();
    assert_eq!(bound.identifier.name, "Point");
    assert_eq!(bound.kind, ParameterKind::Circuit);
    assert!(table.get_variable(&"Point".to_string()).is_none());
    let f = ImportSymbol { symbol: id("area"), alias: None };
    assert!(table.insert_import_symbol(&f, &lib).is_ok());
    assert_eq!(table.get_variable(&"area".to_string()).unwrap().kind, ParameterKind::Function);
}

#[test]
fn import_star_with_duplicate_circuit_fails() {
    let mut table = SymbolTable::new(None);
    let lib = program("lib", vec![circuit("Point", vec![]), circuit("Point", vec![])], vec![]);
    let star = ImportSymbol { symbol: id("*"), alias: None };
    assert!(star.is_star());
    assert!(matches!(table.insert_import_symbol(&star, &lib), Err(SymbolTableError::DuplicateCircuit(_))));
}

#[test]
fn import_star_binds_everything() {
    let mut table = SymbolTable::new(None);
    let lib = program("lib", vec![circuit("Point", vec![])], vec![function("area", vec![], None)]);
    let star = ImportSymbol { symbol: id("*"), alias: None };
    assert!(table.insert_import_symbol(&star, &lib).is_ok());
    assert!(table.get_variable(&"Point".to_string()).is_some());
    assert!(table.get_variable(&"area".to_string()).is_some());
}

fn import_of(module: &str, symbol: &str) -> ImportStatement {
    ImportStatement {
        package: id(module),
        symbols: vec![(module.to_string(), ImportSymbol { symbol: id(symbol), alias: None })],
    }
}

#[test]
fn import_of_unknown_package_fails() {
    let mut table = SymbolTable::new(None);
    let parser = ImportParser::new();
    match table.insert_import(&import_of("nowhere", "x"), &parser) {
        Err(SymbolTableError::UnknownPackage(n)) => assert_eq!(n, "nowhere"),
        other => panic!("unexpected {:?}", other),
    }
}

#[test]
fn imported_module_is_checked() {
    let mut parser = ImportParser::new();
    let bad = program("bad", vec![circuit("C", vec![]), circuit("C", vec![])], vec![]);
    assert!(parser.insert_import("bad".to_string(), bad).is_ok());
    let good = program("good", vec![circuit("Q", vec![("x", Type::Field)])], vec![]);
    assert!(parser.insert_import("good".to_string(), good).is_ok());

    let mut table = SymbolTable::new(None);
    assert!(matches!(table.insert_import(&import_of("bad", "C"), &parser), Err(SymbolTableError::DuplicateCircuit(_))));

    let mut table = SymbolTable::new(None);
    assert!(table.insert_import(&import_of("good", "Q"), &parser).is_ok());
    assert!(table.get_circuit(&"Q".to_string()).is_some());
}

#[test]
fn module_import_order_is_enforced() {
    let mut parser = ImportParser::new();
    let mut uses_later = program("first", vec![], vec![]);
    uses_later.imports.push(import_of("second", "x"));
    assert!(parser.insert_import("first".to_string(), uses_later).is_err());
    assert!(parser.get_import(&"first".to_string()).is_none());
}

#[test]
fn check_import_uses_core_package() {
    let mut parser = ImportParser::new();
    let package = CorePackage { name: id("core"), circuits: vec![circuit("Blake2s", vec![("x", Type::Integer(IntegerType::U32))])] };
    assert!(parser.insert_core_package("core".to_string(), package).is_none());
    let mut table = SymbolTable::new(None);
    assert!(table.check_import(&import_of("core", "Blake2s"), &parser).is_ok());
    assert_eq!(table.get_variable(&"Blake2s".to_string()).unwrap().kind, ParameterKind::Circuit);
    assert_eq!(table.get_circuit(&"Blake2s".to_string()).unwrap().variables.len(), 1);
}

#[test]
fn check_duplicate_program_runs_imports_then_names() {
    let mut parser = ImportParser::new();
    let lib = program("lib", vec![circuit("Point", vec![])], vec![]);
    assert!(parser.insert_import("lib".to_string(), lib).is_ok());
    let mut main_program = program("app", vec![circuit("Line", vec![])], vec![function("main", vec![], None)]);
    main_program.imports.push(import_of("lib", "Point"));
    let mut table = SymbolTable::new(None);
    assert!(table.check_duplicate_program(&main_program, &parser).is_ok());
    assert!(table.get_variable(&"Line".to_string()).is_some());
    assert!(table.get_variable(&"main".to_string()).is_some());
    assert!(table.get_variable(&"Point".to_string()).is_some());

    let mut clash = program("app", vec![circuit("Point", vec![])], vec![]);
    clash.imports.push(import_of("lib", "Point"));
    let mut table = SymbolTable::new(None);
    assert!(matches!(table.check_duplicate_program(&clash, &parser), Err(SymbolTableError::DuplicateCircuit(_))));
}

#[test]
fn check_imports_stops_at_first_unknown() {
    let parser = ImportParser::new();
    let mut table = SymbolTable::new(None);
    let imports = vec![import_of("a", "x"), import_of("b", "y")];
    match table.check_imports(&imports, &parser) {
        Err(SymbolTableError::UnknownPackage(n)) => assert_eq!(n, "a"),
        other => panic!("unexpected {:?}", other),
    }
}

#[test]
fn empty_import_list_changes_nothing() {
    let parser = ImportParser::new();
    let mut table = SymbolTable::new(None);
    assert!(table.check_imports(&Vec::new(), &parser).is_ok());
    let empty = ImportStatement { package: id("m"), symbols: Vec::new() };
    assert!(table.insert_import(&empty, &parser).is_ok());
    assert!(table.get_variable(&"m".to_string()).is_none());
}

#[test]
fn module_named_twice_is_checked_once() {
    let mut parser = ImportParser::new();
    let lib = program("lib", vec![circuit("A", vec![])], vec![function("b", vec![], None)]);
    assert!(parser.insert_import("lib".to_string(), lib).is_ok());
    let statement = ImportStatement {
        package: id("lib"),
        symbols: vec![
            ("lib".to_string(), ImportSymbol { symbol: id("A"), alias: None }),
            ("lib".to_string(), ImportSymbol { symbol: id("b"), alias: Some(id("c")) }),
        ],
    };
    let mut table = SymbolTable::new(None);
    assert!(table.insert_import(&statement, &parser).is_ok());
    assert!(table.get_variable(&"A".to_string()).is_some());
    assert!(table.get_variable(&"c".to_string()).is_none());
}

#[test]
fn core_package_name_clash_is_duplicate_circuit() {
    let package = CorePackage { name: id("core"), circuits: vec![circuit("Blake2s", vec![])] };
    let mut table = SymbolTable::new(None);
    assert!(table.insert_circuit_name("Blake2s".to_string(), entry("Blake2s", ParameterKind::Circuit)).is_ok());
    assert!(matches!(table.insert_core_package(&package), Err(SymbolTableError::DuplicateCircuit(_))));
}

#[test]
fn function_named_like_program_circuit_is_duplicate_function() {
    let parser = ImportParser::new();
    let prog = program("app", vec![circuit("X", vec![])], vec![function("X", vec![], None)]);
    let mut table = SymbolTable::new(None);
    match table.check_duplicate_program(&prog, &parser) {
        Err(SymbolTableError::DuplicateFunction(p)) => assert_eq!(p.kind, ParameterKind::Circuit),
        other => panic!("unexpected {:?}", other),
    }
}

#[test]
fn new_table_without_parent_finds_nothing() {
    let table = SymbolTable::new(None);
    assert!(table.get_circuit(&"A".to_string()).is_none());
    assert!(table.get_function(&"A".to_string()).is_none());
    assert!(table.get_variable(&"A".to_string()).is_none());
}

#[test]
fn failing_circuit_leaves_function_types_alone() {
    let mut table = SymbolTable::new(None);
    let prog = program("app", vec![circuit("A", vec![("z", Type::Circuit(id("Zed")))])], vec![function("f", vec![], None)]);
    assert!(table.check_duplicate_circuits(&prog.circuits).is_ok());
    assert!(table.check_duplicate_functions(&prog.functions).is_ok());
    match table.check_unknown_types_program(&prog) {
        Err(SymbolTableError::UnknownType(name)) => assert_eq!(name, "Zed"),
        other => panic!("unexpected {:?}", other),
    }
    assert!(table.get_function(&"f".to_string()).is_none());
}

#[test]
fn core_package_circuit_may_use_earlier_package_circuit() {
    let package = CorePackage {
        name: id("core"),
        circuits: vec![circuit("Inner", vec![("x", Type::Field)]), circuit("Outer", vec![("i", Type::Circuit(id("Inner")))])],
    };
    let mut table = SymbolTable::new(None);
    assert!(table.insert_core_package(&package).is_ok());
    assert!(matches!(&table.get_circuit(&"Outer".to_string()).unwrap().variables[0].type_, ResolvedType::Circuit(n) if n.name == "Inner"));
}

#[test]
fn core_package_circuit_using_later_one_fails() {
    let package = CorePackage {
        name: id("core"),
        circuits: vec![circuit("Outer", vec![("i", Type::Circuit(id("Inner")))]), circuit("Inner", vec![])],
    };
    let mut table = SymbolTable::new(None);
    match table.insert_core_package(&package) {
        Err(SymbolTableError::UnknownType(name)) => assert_eq!(name, "Inner"),
        other => panic!("unexpected {:?}", other),
    }
}

#[test]
fn core_package_clash_carries_prior_entry() {
    let package = CorePackage { name: id("core"), circuits: vec![circuit("Hash", vec![]), circuit("Hash", vec![])] };
    let mut table = SymbolTable::new(None);
    match table.insert_core_package(&package) {
        Err(SymbolTableError::DuplicateCircuit(p)) => {
            assert_eq!(p.identifier.name, "Hash");
            assert_eq!(p.kind, ParameterKind::Circuit);
        }
        other => panic!("unexpected {:?}", other),
    }
}

#[test]
fn insert_input_reports_first_failing_section() {
    let mut table = SymbolTable::new(None);
    let input = Input {
        registers: vec![
            FunctionInput { identifier: id("ok"), type_: Type::Field },
            FunctionInput { identifier: id("bad1"), type_: Type::Circuit(id("First")) },
        ],
        record: vec![FunctionInput { identifier: id("bad2"), type_: Type::Circuit(id("Second")) }],
        state: Vec::new(),
        state_leaf: Vec::new(),
    };
    match table.insert_input(&input) {
        Err(SymbolTableError::UnknownType(name)) => assert_eq!(name, "First"),
        other => panic!("unexpected {:?}", other),
    }
}

#[test]
fn self_outside_circuit_is_named() {
    let table = SymbolTable::new(None);
    match table.resolve_type(&Type::SelfType, None) {
        Err(SymbolTableError::UnknownType(name)) => assert_eq!(name, "Self"),
        other => panic!("unexpected {:?}", other),
    }
}

#[test]
fn check_imports_reports_later_statement_error() {
    let mut parser = ImportParser::new();
    assert!(parser.insert_import("lib".to_string(), program("lib", vec![circuit("A", vec![])], vec![])).is_ok());
    let mut table = SymbolTable::new(None);
    let imports = vec![import_of("lib", "A"), import_of("gone", "x")];
    match table.check_imports(&imports, &parser) {
        Err(SymbolTableError::UnknownPackage(n)) => assert_eq!(n, "gone"),
        other => panic!("unexpected {:?}", other),
    }
    assert!(table.get_circuit(&"A".to_string()).is_some());
}

#[test]
fn import_of_two_modules_checks_both() {
    let mut parser = ImportParser::new();
    assert!(parser.insert_import("a".to_string(), program("a", vec![circuit("A", vec![])], vec![])).is_ok());
    assert!(parser.insert_import("b".to_string(), program("b", vec![], vec![function("g", vec![], None)])).is_ok());
    let statement = ImportStatement {
        package: id("a"),
        symbols: vec![
            ("a".to_string(), ImportSymbol { symbol: id("A"), alias: None }),
            ("b".to_string(), ImportSymbol { symbol: id("g"), alias: None }),
            ("a".to_string(), ImportSymbol { symbol: id("A"), alias: Some(id("B")) }),
        ],
    };
    let mut table = SymbolTable::new(None);
    assert!(table.insert_import(&statement, &parser).is_ok());
    assert!(table.get_circuit(&"A".to_string()).is_some());
    assert!(table.get_function(&"g".to_string()).is_some());
}
