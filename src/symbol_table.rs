//! Scoped symbol tables and the two-pass check of a program's names and types.
use vstd::prelude::*;
use crate::assoc::{keys_unique, has_key, lookup, lemma_lookup_at, find_key, insert_key};
use crate::types::{Identifier, IntegerType, Type, Circuit, Function, FunctionInput, ImportSymbol, ImportStatement, Program, CorePackage, Input};

verus! {

/// Whether a declared name is a circuit or a function.
#[derive(Debug, Clone, Copy, PartialEq, Eq, Structural)]
pub enum ParameterKind {
    Circuit,
    Function,
}

/// What a name at one scope level stands for.
#[derive(Debug, Clone)]
pub struct ParameterType {
    pub identifier: Identifier,
    pub kind: ParameterKind,
}

impl ParameterType {
    pub open spec fn model(&self) -> (Seq<char>, ParameterKind) {
        (self.identifier.name@, self.kind)
    }

    /// The entry for a circuit definition.
    pub fn from_circuit(circuit: &Circuit) -> (r: ParameterType)
        ensures
            r.model() == (circuit.circuit_name.name@, ParameterKind::Circuit),
    {
        ParameterType { identifier: circuit.circuit_name.duplicate(), kind: ParameterKind::Circuit }
    }

    /// The entry for a function definition.
    pub fn from_function(function: &Function) -> (r: ParameterType)
        ensures
            r.model() == (function.identifier.name@, ParameterKind::Function),
    {
        ParameterType { identifier: function.identifier.duplicate(), kind: ParameterKind::Function }
    }
}

/// A type after resolution: a circuit type names a circuit that is declared.
#[derive(Debug, Clone)]
pub enum ResolvedType {
    Address,
    Boolean,
    Field,
    Group,
    Integer(IntegerType),
    Circuit(Identifier),
}

/// The mathematical value of a resolved type.
pub enum TypeModel {
    Address,
    Boolean,
    Field,
    Group,
    Integer(IntegerType),
    Circuit(Seq<char>),
}

impl ResolvedType {
    pub open spec fn model(&self) -> TypeModel {
        match self {
            ResolvedType::Address => TypeModel::Address,
            ResolvedType::Boolean => TypeModel::Boolean,
            ResolvedType::Field => TypeModel::Field,
            ResolvedType::Group => TypeModel::Group,
            ResolvedType::Integer(w) => TypeModel::Integer(*w),
            ResolvedType::Circuit(id) => TypeModel::Circuit(id.name@),
        }
    }
}

/// A member variable of a circuit type.
#[derive(Debug, Clone)]
pub struct CircuitVariableType {
    pub identifier: Identifier,
    pub type_: ResolvedType,
}

/// The full type of a function: parameter types and result type.
#[derive(Debug, Clone)]
pub struct FunctionType {
    pub identifier: Identifier,
    pub inputs: Vec<ResolvedType>,
    pub output: Option<ResolvedType>,
}

/// The full type of a circuit: member variable types and member function types.
#[derive(Debug, Clone)]
pub struct CircuitType {
    pub identifier: Identifier,
    pub variables: Vec<CircuitVariableType>,
    pub functions: Vec<FunctionType>,
}

/// Why a program's names or types were rejected.
#[derive(Debug, Clone)]
pub enum SymbolTableError {
    /// A circuit name is declared twice at one level; carries the earlier entry.
    DuplicateCircuit(ParameterType),
    /// A function name is declared twice at one level; carries the earlier entry.
    DuplicateFunction(ParameterType),
    /// An imported symbol is neither a circuit nor a function of its module.
    UnknownSymbol(String, String),
    /// An imported module is not known.
    UnknownPackage(String),
    /// A type names a circuit that is not declared.
    UnknownType(String),
}

/// One scope level: names, circuit types and function types, and the
/// enclosing level. Circuit and function lookups see the enclosing levels;
/// no level sees into another's children.
#[derive(Debug)]
pub struct SymbolTable {
    names: Vec<(String, ParameterType)>,
    circuits: Vec<(String, CircuitType)>,
    functions: Vec<(String, FunctionType)>,
    parent: Option<Box<SymbolTable>>,
}

impl SymbolTable {
    /// No name occurs twice at any level.
    pub closed spec fn wf(&self) -> bool
        decreases self,
    {
        &&& keys_unique(self.names@)
        &&& keys_unique(self.circuits@)
        &&& keys_unique(self.functions@)
        &&& match self.parent {
            Some(p) => p.wf(),
            None => true,
        }
    }

    /// The entry for `k` at this level.
    pub closed spec fn name_at(&self, k: Seq<char>) -> Option<ParameterType> {
        lookup(self.names@, k)
    }

    /// The circuit type at this level.
    pub closed spec fn circuit_at(&self, k: Seq<char>) -> Option<CircuitType> {
        lookup(self.circuits@, k)
    }

    /// The function type at this level.
    pub closed spec fn function_at(&self, k: Seq<char>) -> Option<FunctionType> {
        lookup(self.functions@, k)
    }

    pub closed spec fn parent_table(&self) -> Option<SymbolTable> {
        match self.parent {
            Some(p) => Some(*p),
            None => None,
        }
    }

    /// The circuit type that `k` names here or at an enclosing level.
    pub closed spec fn circuit_of(&self, k: Seq<char>) -> Option<CircuitType>
        decreases self,
    {
        match self.circuit_at(k) {
            Some(c) => Some(c),
            None => match self.parent {
                Some(p) => p.circuit_of(k),
                None => None,
            },
        }
    }

    /// The function type that `k` names here or at an enclosing level.
    pub closed spec fn function_of(&self, k: Seq<char>) -> Option<FunctionType>
        decreases self,
    {
        match self.function_at(k) {
            Some(f) => Some(f),
            None => match self.parent {
                Some(p) => p.function_of(k),
                None => None,
            },
        }
    }

    /// The entry for `k` at this level, as (name, kind).
    pub open spec fn name_model(&self, k: Seq<char>) -> Option<(Seq<char>, ParameterKind)> {
        match self.name_at(k) {
            Some(p) => Some(p.model()),
            None => None,
        }
    }

    /// Creates an empty level below `parent`.
    pub fn new(parent: Option<Box<SymbolTable>>) -> (r: SymbolTable)
        requires
            match parent {
                Some(p) => p.wf(),
                None => true,
            },
        ensures
            r.wf(),
            forall|k: Seq<char>| #[trigger] r.name_at(k) is None,
            forall|k: Seq<char>| #[trigger] r.circuit_at(k) is None,
            forall|k: Seq<char>| #[trigger] r.function_at(k) is None,
            r.parent_table() == match parent {
                Some(p) => Some(*p),
                None => None::<SymbolTable>,
            },
    {
        SymbolTable { names: Vec::new(), circuits: Vec::new(), functions: Vec::new(), parent }
    }

    /// Stores `variable_type` under `name` at this level; returns the entry it replaced.
    pub fn insert_name(&mut self, name: String, variable_type: ParameterType) -> (r: Option<ParameterType>)
        requires
            old(self).wf(),
        ensures
            final(self).wf(),
            r == old(self).name_at(name@),
            forall|k: Seq<char>| #[trigger] final(self).name_at(k) == if k == name@ {
                Some(variable_type)
            } else {
                old(self).name_at(k)
            },
            forall|k: Seq<char>| #[trigger] final(self).circuit_at(k) == old(self).circuit_at(k),
            forall|k: Seq<char>| #[trigger] final(self).function_at(k) == old(self).function_at(k),
            final(self).parent_table() == old(self).parent_table(),
    {
        insert_key(&mut self.names, name, variable_type)
    }

    /// Stores a circuit name; fails if the name is taken at this level.
    pub fn insert_circuit_name(&mut self, name: String, variable_type: ParameterType) -> (r: Result<(), SymbolTableError>)
        requires
            old(self).wf(),
        ensures
            final(self).wf(),
            match old(self).name_at(name@) {
                None => r is Ok,
                Some(p) => r matches Err(SymbolTableError::DuplicateCircuit(q)) && q == p,
            },
            forall|k: Seq<char>| #[trigger] final(self).name_at(k) == if k == name@ {
                Some(variable_type)
            } else {
                old(self).name_at(k)
            },
            forall|k: Seq<char>| #[trigger] final(self).circuit_at(k) == old(self).circuit_at(k),
            forall|k: Seq<char>| #[trigger] final(self).function_at(k) == old(self).function_at(k),
            final(self).parent_table() == old(self).parent_table(),
    {
        match self.insert_name(name, variable_type) {
            Some(duplicate) => Err(SymbolTableError::DuplicateCircuit(duplicate)),
            None => Ok(()),
        }
    }

    /// Stores a function name; fails if the name is taken at this level.
    pub fn insert_function_name(&mut self, name: String, variable_type: ParameterType) -> (r: Result<(), SymbolTableError>)
        requires
            old(self).wf(),
        ensures
            final(self).wf(),
            match old(self).name_at(name@) {
                None => r is Ok,
                Some(p) => r matches Err(SymbolTableError::DuplicateFunction(q)) && q == p,
            },
            forall|k: Seq<char>| #[trigger] final(self).name_at(k) == if k == name@ {
                Some(variable_type)
            } else {
                old(self).name_at(k)
            },
            forall|k: Seq<char>| #[trigger] final(self).circuit_at(k) == old(self).circuit_at(k),
            forall|k: Seq<char>| #[trigger] final(self).function_at(k) == old(self).function_at(k),
            final(self).parent_table() == old(self).parent_table(),
    {
        match self.insert_name(name, variable_type) {
            Some(duplicate) => Err(SymbolTableError::DuplicateFunction(duplicate)),
            None => Ok(()),
        }
    }

    /// Stores the type of circuit `identifier` at this level; returns the one it replaced.
    pub fn insert_circuit(&mut self, identifier: Identifier, circuit_type: CircuitType) -> (r: Option<CircuitType>)
        requires
            old(self).wf(),
        ensures
            final(self).wf(),
            r == old(self).circuit_at(identifier.name@),
            forall|k: Seq<char>| #[trigger] final(self).circuit_at(k) == if k == identifier.name@ {
                Some(circuit_type)
            } else {
                old(self).circuit_at(k)
            },
            forall|k: Seq<char>| #[trigger] final(self).name_at(k) == old(self).name_at(k),
            forall|k: Seq<char>| #[trigger] final(self).function_at(k) == old(self).function_at(k),
            final(self).parent_table() == old(self).parent_table(),
    {
        insert_key(&mut self.circuits, identifier.name, circuit_type)
    }

    /// Stores the type of function `identifier` at this level; returns the one it replaced.
    pub fn insert_function(&mut self, identifier: Identifier, function_type: FunctionType) -> (r: Option<FunctionType>)
        requires
            old(self).wf(),
        ensures
            final(self).wf(),
            r == old(self).function_at(identifier.name@),
            forall|k: Seq<char>| #[trigger] final(self).function_at(k) == if k == identifier.name@ {
                Some(function_type)
            } else {
                old(self).function_at(k)
            },
            forall|k: Seq<char>| #[trigger] final(self).name_at(k) == old(self).name_at(k),
            forall|k: Seq<char>| #[trigger] final(self).circuit_at(k) == old(self).circuit_at(k),
            final(self).parent_table() == old(self).parent_table(),
    {
        insert_key(&mut self.functions, identifier.name, function_type)
    }

    /// The entry for `name` at this level only.
    pub fn get_variable(&self, name: &String) -> (r: Option<&ParameterType>)
        requires
            self.wf(),
        ensures
            match r {
                Some(p) => self.name_at(name@) == Some(*p),
                None => self.name_at(name@) is None,
            },
    {
        match find_key(&self.names, name) {
            Some(i) => {
                proof {
                    lemma_lookup_at(self.names@, i as int);
                }
                Some(&self.names[i].1)
            },
            None => None,
        }
    }

    /// The circuit type that `name` names here or at an enclosing level.
    pub fn get_circuit(&self, name: &String) -> (r: Option<&CircuitType>)
        requires
            self.wf(),
        ensures
            match r {
                Some(c) => self.circuit_of(name@) == Some(*c),
                None => self.circuit_of(name@) is None,
            },
        decreases self,
    {
        match find_key(&self.circuits, name) {
            Some(i) => {
                proof {
                    lemma_lookup_at(self.circuits@, i as int);
                }
                Some(&self.circuits[i].1)
            },
            None => match &self.parent {
                Some(parent) => parent.get_circuit(name),
                None => None,
            },
        }
    }

    /// The function type that `key` names here or at an enclosing level.
    pub fn get_function(&self, key: &String) -> (r: Option<&FunctionType>)
        requires
            self.wf(),
        ensures
            match r {
                Some(f) => self.function_of(key@) == Some(*f),
                None => self.function_of(key@) is None,
            },
        decreases self,
    {
        match find_key(&self.functions, key) {
            Some(i) => {
                proof {
                    lemma_lookup_at(self.functions@, i as int);
                }
                Some(&self.functions[i].1)
            },
            None => match &self.parent {
                Some(parent) => parent.get_function(key),
                None => None,
            },
        }
    }
}

impl SymbolTable {
    /// `k` names a circuit: a circuit name at this level, or a circuit type
    /// at an enclosing level.
    pub open spec fn knows_circuit(&self, k: Seq<char>) -> bool {
        (self.name_at(k) matches Some(p) && p.kind == ParameterKind::Circuit) || match self.parent_table() {
            Some(p) => p.circuit_of(k) is Some,
            None => false,
        }
    }

    /// What `t` resolves to here, inside the circuit `self_name` if any.
    pub open spec fn resolve(&self, t: Type, self_name: Option<Seq<char>>) -> Option<TypeModel> {
        match t {
            Type::Address => Some(TypeModel::Address),
            Type::Boolean => Some(TypeModel::Boolean),
            Type::Field => Some(TypeModel::Field),
            Type::Group => Some(TypeModel::Group),
            Type::Integer(w) => Some(TypeModel::Integer(w)),
            Type::Circuit(id) => if self.knows_circuit(id.name@) {
                Some(TypeModel::Circuit(id.name@))
            } else {
                None
            },
            Type::SelfType => match self_name {
                Some(n) => Some(TypeModel::Circuit(n)),
                None => None,
            },
        }
    }

    /// Every type in `f`'s signature resolves.
    pub open spec fn function_resolves(&self, f: Function, self_name: Option<Seq<char>>) -> bool {
        &&& forall|i: int| 0 <= i < f.input@.len() ==> (#[trigger] self.resolve(f.input@[i].type_, self_name)) is Some
        &&& match f.output {
            Some(t) => self.resolve(t, self_name) is Some,
            None => true,
        }
    }

    /// `ft` is the type of `f`.
    pub open spec fn function_type_of(&self, f: Function, self_name: Option<Seq<char>>, ft: FunctionType) -> bool {
        &&& ft.identifier.name@ == f.identifier.name@
        &&& ft.inputs@.len() == f.input@.len()
        &&& forall|i: int| 0 <= i < f.input@.len() ==> #[trigger] self.resolve(f.input@[i].type_, self_name) == Some(ft.inputs@[i].model())
        &&& match f.output {
            Some(t) => ft.output matches Some(o) && self.resolve(t, self_name) == Some(o.model()),
            None => ft.output is None,
        }
    }

    /// Every type in circuit `c` resolves.
    pub open spec fn circuit_resolves(&self, c: Circuit) -> bool {
        let n = Some(c.circuit_name.name@);
        &&& forall|i: int| 0 <= i < c.variables@.len() ==> (#[trigger] self.resolve(c.variables@[i].type_, n)) is Some
        &&& forall|i: int| 0 <= i < c.functions@.len() ==> #[trigger] self.function_resolves(c.functions@[i], n)
    }

    /// `ct` is the type of circuit `c`.
    pub open spec fn circuit_type_of(&self, c: Circuit, ct: CircuitType) -> bool {
        let n = Some(c.circuit_name.name@);
        &&& ct.identifier.name@ == c.circuit_name.name@
        &&& ct.variables@.len() == c.variables@.len()
        &&& forall|i: int| 0 <= i < c.variables@.len() ==> {
            &&& (#[trigger] ct.variables@[i]).identifier.name@ == c.variables@[i].identifier.name@
            &&& self.resolve(c.variables@[i].type_, n) == Some(ct.variables@[i].type_.model())
        }
        &&& ct.functions@.len() == c.functions@.len()
        &&& forall|i: int| 0 <= i < c.functions@.len() ==> #[trigger] self.function_type_of(c.functions@[i], n, ct.functions@[i])
    }

    /// `e` reports that `t` does not resolve, naming the circuit it refers to.
    pub open spec fn unknown_type_error(&self, t: Type, self_name: Option<Seq<char>>, e: SymbolTableError) -> bool {
        &&& self.resolve(t, self_name) is None
        &&& match t {
            Type::Circuit(id) => e == SymbolTableError::UnknownType(id.name),
            Type::SelfType => e matches SymbolTableError::UnknownType(n) && n@ == seq!['S', 'e', 'l', 'f'],
            _ => e is UnknownType,
        }
    }

    /// `e` reports the first type in `f`'s signature that does not resolve:
    /// parameters in order, then the result.
    pub open spec fn function_error(&self, f: Function, self_name: Option<Seq<char>>, e: SymbolTableError) -> bool {
        ||| exists|i: int| 0 <= i < f.input@.len() && #[trigger] self.unknown_type_error(f.input@[i].type_, self_name, e)
            && forall|a: int| 0 <= a < i ==> (#[trigger] self.resolve(f.input@[a].type_, self_name)) is Some
        ||| (forall|a: int| 0 <= a < f.input@.len() ==> (#[trigger] self.resolve(f.input@[a].type_, self_name)) is Some)
            && (f.output matches Some(t) && self.unknown_type_error(t, self_name, e))
    }

    /// `e` reports the first member type of circuit `c` that does not
    /// resolve: member variables in order, then member functions in order.
    pub open spec fn circuit_error(&self, c: Circuit, e: SymbolTableError) -> bool {
        let n = Some(c.circuit_name.name@);
        ||| exists|i: int| 0 <= i < c.variables@.len() && #[trigger] self.unknown_type_error(c.variables@[i].type_, n, e)
            && forall|a: int| 0 <= a < i ==> (#[trigger] self.resolve(c.variables@[a].type_, n)) is Some
        ||| (forall|a: int| 0 <= a < c.variables@.len() ==> (#[trigger] self.resolve(c.variables@[a].type_, n)) is Some)
            && exists|i: int| 0 <= i < c.functions@.len() && #[trigger] self.function_error(c.functions@[i], n, e)
            && forall|a: int| 0 <= a < i ==> #[trigger] self.function_resolves(c.functions@[a], n)
    }

    /// Whether `name` names a circuit here.
    fn is_known_circuit(&self, name: &String) -> (r: bool)
        requires
            self.wf(),
        ensures
            r == self.knows_circuit(name@),
    {
        let named = match self.get_variable(name) {
            Some(p) => p.kind == ParameterKind::Circuit,
            None => false,
        };
        if named {
            return true;
        }
        match &self.parent {
            Some(parent) => parent.get_circuit(name).is_some(),
            None => false,
        }
    }

    /// Resolves `t` here, inside the circuit `self_name` if any.
    pub fn resolve_type(&self, t: &Type, self_name: Option<&Identifier>) -> (r: Result<ResolvedType, SymbolTableError>)
        requires
            self.wf(),
        ensures
            match r {
                Ok(rt) => self.resolve(*t, match self_name { Some(n) => Some(n.name@), None => None }) == Some(rt.model()),
                Err(e) => self.unknown_type_error(*t, match self_name { Some(n) => Some(n.name@), None => None }, e),
            },
    {
        match t {
            Type::Address => Ok(ResolvedType::Address),
            Type::Boolean => Ok(ResolvedType::Boolean),
            Type::Field => Ok(ResolvedType::Field),
            Type::Group => Ok(ResolvedType::Group),
            Type::Integer(w) => Ok(ResolvedType::Integer(*w)),
            Type::Circuit(id) => if self.is_known_circuit(&id.name) {
                Ok(ResolvedType::Circuit(id.duplicate()))
            } else {
                Err(SymbolTableError::UnknownType(id.name.clone()))
            },
            Type::SelfType => match self_name {
                Some(n) => Ok(ResolvedType::Circuit(n.duplicate())),
                None => {
                    proof {
                        reveal_strlit("Self");
                    }
                    let name = "Self".to_owned();
                    assert(name@ =~= seq!['S', 'e', 'l', 'f']);
                    Err(SymbolTableError::UnknownType(name))
                },
            },
        }
    }
}

impl FunctionType {
    /// The type of `function`, inside the circuit `self_name` if any.
    fn resolve_in(table: &SymbolTable, function: &Function, self_name: Option<&Identifier>) -> (r: Result<FunctionType, SymbolTableError>)
        requires
            table.wf(),
        ensures
            match r {
                Ok(ft) => table.function_type_of(*function, match self_name { Some(n) => Some(n.name@), None => None }, ft)
                    && table.function_resolves(*function, match self_name { Some(n) => Some(n.name@), None => None }),
                Err(e) => !table.function_resolves(*function, match self_name { Some(n) => Some(n.name@), None => None })
                    && e is UnknownType
                    && table.function_error(*function, match self_name { Some(n) => Some(n.name@), None => None }, e),
            },
    {
        let ghost sn = match self_name { Some(n) => Some(n.name@), None => None };
        let mut inputs: Vec<ResolvedType> = Vec::new();
        let mut i: usize = 0;
        while i < function.input.len()
            invariant
                table.wf(),
                i <= function.input.len(),
                sn == match self_name { Some(n) => Some(n.name@), None => None::<Seq<char>> },
                inputs@.len() == i,
                forall|j: int| 0 <= j < i ==> #[trigger] table.resolve(function.input@[j].type_, sn) == Some(inputs@[j].model()),
            decreases function.input.len() - i,
        {
            match table.resolve_type(&function.input[i].type_, self_name) {
                Ok(t) => inputs.push(t),
                Err(e) => {
                    assert(table.resolve(function.input@[i as int].type_, sn) is None);
                    return Err(e);
                },
            }
            i = i + 1;
        }
        let output = match &function.output {
            Some(t) => match table.resolve_type(t, self_name) {
                Ok(o) => Some(o),
                Err(e) => return Err(e),
            },
            None => None,
        };
        Ok(FunctionType { identifier: function.identifier.duplicate(), inputs, output })
    }

    /// The type of the free function `function`.
    pub fn new(table: &SymbolTable, function: &Function) -> (r: Result<FunctionType, SymbolTableError>)
        requires
            table.wf(),
        ensures
            match r {
                Ok(ft) => table.function_type_of(*function, None, ft) && table.function_resolves(*function, None),
                Err(e) => !table.function_resolves(*function, None) && e is UnknownType && table.function_error(*function, None, e),
            },
    {
        FunctionType::resolve_in(table, function, None)
    }
}

impl CircuitType {
    /// The type of `circuit`.
    pub fn new(table: &SymbolTable, circuit: &Circuit) -> (r: Result<CircuitType, SymbolTableError>)
        requires
            table.wf(),
        ensures
            match r {
                Ok(ct) => table.circuit_type_of(*circuit, ct) && table.circuit_resolves(*circuit),
                Err(e) => !table.circuit_resolves(*circuit) && e is UnknownType && table.circuit_error(*circuit, e),
            },
    {
        let name = &circuit.circuit_name;
        let ghost n = Some(name.name@);
        let mut variables: Vec<CircuitVariableType> = Vec::new();
        let mut i: usize = 0;
        while i < circuit.variables.len()
            invariant
                table.wf(),
                i <= circuit.variables.len(),
                n == Some(circuit.circuit_name.name@),
                name.name@ == circuit.circuit_name.name@,
                variables@.len() == i,
                forall|j: int| 0 <= j < i ==> {
                    &&& (#[trigger] variables@[j]).identifier.name@ == circuit.variables@[j].identifier.name@
                    &&& table.resolve(circuit.variables@[j].type_, n) == Some(variables@[j].type_.model())
                },
            decreases circuit.variables.len() - i,
        {
            let v = &circuit.variables[i];
            match table.resolve_type(&v.type_, Some(name)) {
                Ok(t) => variables.push(CircuitVariableType { identifier: v.identifier.duplicate(), type_: t }),
                Err(e) => {
                    assert(table.resolve(circuit.variables@[i as int].type_, n) is None);
                    assert forall|a: int| 0 <= a < i implies (#[trigger] table.resolve(circuit.variables@[a].type_, n)) is Some by {
                        assert(table.resolve(circuit.variables@[a].type_, n) == Some(variables@[a].type_.model()));
                    }
                    assert(table.circuit_error(*circuit, e));
                    return Err(e);
                },
            }
            i = i + 1;
        }
        let mut functions: Vec<FunctionType> = Vec::new();
        let mut i: usize = 0;
        while i < circuit.functions.len()
            invariant
                table.wf(),
                i <= circuit.functions.len(),
                n == Some(circuit.circuit_name.name@),
                name.name@ == circuit.circuit_name.name@,
                functions@.len() == i,
                variables@.len() == circuit.variables.len(),
                forall|j: int| 0 <= j < circuit.variables.len() ==> {
                    &&& (#[trigger] variables@[j]).identifier.name@ == circuit.variables@[j].identifier.name@
                    &&& table.resolve(circuit.variables@[j].type_, n) == Some(variables@[j].type_.model())
                },
                forall|j: int| 0 <= j < i ==> #[trigger] table.function_type_of(circuit.functions@[j], n, functions@[j]),
                forall|j: int| 0 <= j < i ==> #[trigger] table.function_resolves(circuit.functions@[j], n),
            decreases circuit.functions.len() - i,
        {
            match FunctionType::resolve_in(table, &circuit.functions[i], Some(name)) {
                Ok(f) => functions.push(f),
                Err(e) => {
                    assert(!table.function_resolves(circuit.functions@[i as int], n));
                    assert forall|a: int| 0 <= a < circuit.variables@.len() implies (#[trigger] table.resolve(circuit.variables@[a].type_, n)) is Some by {
                        assert(table.resolve(circuit.variables@[a].type_, n) == Some(variables@[a].type_.model()));
                    }
                    assert(table.function_error(circuit.functions@[i as int], n, e));
                    assert(table.circuit_error(*circuit, e));
                    return Err(e);
                },
            }
            i = i + 1;
        }
        assert forall|j: int| 0 <= j < circuit.variables@.len() implies (#[trigger] table.resolve(circuit.variables@[j].type_, n)) is Some by {
            assert(table.resolve(circuit.variables@[j].type_, n) == Some(variables@[j].type_.model()));
        }
        Ok(CircuitType { identifier: name.duplicate(), variables, functions })
    }
}

/// The names of `cs`, in order.
pub open spec fn circuit_names(cs: Seq<Circuit>) -> Seq<Seq<char>> {
    cs.map_values(|c: Circuit| c.circuit_name.name@)
}

/// The names of `fs`, in order.
pub open spec fn function_names(fs: Seq<Function>) -> Seq<Seq<char>> {
    fs.map_values(|f: Function| f.identifier.name@)
}

pub open spec fn string_views(v: Seq<String>) -> Seq<Seq<char>> {
    v.map_values(|s: String| s@)
}

/// `e` is the duplicate-name error of `kind` that carries `p`.
pub open spec fn duplicate_of(kind: ParameterKind, e: SymbolTableError, p: ParameterType) -> bool {
    match e {
        SymbolTableError::DuplicateCircuit(q) => kind == ParameterKind::Circuit && q.model() == p.model(),
        SymbolTableError::DuplicateFunction(q) => kind == ParameterKind::Function && q.model() == p.model(),
        _ => false,
    }
}

impl SymbolTable {
    /// Each of `ns` can be added at this level: none is taken, none repeats.
    pub open spec fn fresh(&self, ns: Seq<Seq<char>>) -> bool {
        &&& forall|i: int| 0 <= i < ns.len() ==> (#[trigger] self.name_at(ns[i])) is None
        &&& forall|i: int, j: int| 0 <= i < j < ns.len() ==> ns[i] != ns[j]
    }

    /// `after` is this level with the names `ns` of `kind` added.
    pub open spec fn with_names(&self, ns: Seq<Seq<char>>, kind: ParameterKind, after: SymbolTable) -> bool {
        forall|k: Seq<char>| #[trigger] after.name_model(k) == if ns.contains(k) {
            Some((k, kind))
        } else {
            self.name_model(k)
        }
    }

    /// `ns[i]` is the first of `ns` that cannot be added, and `p` the entry it meets.
    pub open spec fn first_clash(&self, ns: Seq<Seq<char>>, kind: ParameterKind, i: int, p: ParameterType) -> bool {
        &&& 0 <= i < ns.len()
        &&& self.fresh(ns.take(i))
        &&& !self.fresh(ns.take(i + 1))
        &&& if ns.take(i).contains(ns[i]) {
            p.model() == (ns[i], kind)
        } else {
            self.name_model(ns[i]) == Some(p.model())
        }
    }

    /// `after` differs from this table at most in the names of this level.
    pub open spec fn types_kept(&self, after: SymbolTable) -> bool {
        &&& after.wf()
        &&& forall|k: Seq<char>| #[trigger] after.circuit_at(k) == self.circuit_at(k)
        &&& forall|k: Seq<char>| #[trigger] after.function_at(k) == self.function_at(k)
        &&& after.parent_table() == self.parent_table()
    }

    /// What adding the names `ns` of `kind` one by one yields.
    pub open spec fn adds_names(&self, ns: Seq<Seq<char>>, kind: ParameterKind, after: SymbolTable, r: Result<(), SymbolTableError>) -> bool {
        &&& self.types_kept(after)
        &&& (r is Ok <==> self.fresh(ns))
        &&& (r is Ok ==> self.with_names(ns, kind, after))
        &&& (r matches Err(e) ==> exists|i: int, p: ParameterType| self.first_clash(ns, kind, i, p) && duplicate_of(kind, e, p))
    }

    /// Adds each of `names` as a name of `kind`, failing at the first that is taken.
    fn insert_names(&mut self, names: &Vec<String>, kind: ParameterKind) -> (r: Result<(), SymbolTableError>)
        requires
            old(self).wf(),
        ensures
            old(self).adds_names(string_views(names@), kind, *final(self), r),
    {
        let ghost ns = string_views(names@);
        let ghost t0 = *self;
        let mut i: usize = 0;
        while i < names.len()
            invariant
                ns == string_views(names@),
                0 <= i <= names.len(),
                t0 == *old(self),
                t0.wf(),
                t0.types_kept(*self),
                t0.fresh(ns.take(i as int)),
                t0.with_names(ns.take(i as int), kind, *self),
            decreases names.len() - i,
        {
            let name = names[i].clone();
            assert(name@ == ns[i as int]);
            let entry = ParameterType { identifier: Identifier::new(names[i].clone()), kind };
            let ghost before = *self;
            let ghost pre = ns.take(i as int);
            let ghost pre1 = ns.take(i + 1);
            let res = if kind == ParameterKind::Circuit {
                self.insert_circuit_name(name, entry)
            } else {
                self.insert_function_name(name, entry)
            };
            assert(pre1 =~= pre.push(ns[i as int]));
            assert(ns.take(i + 1) == pre1);
            match res {
                Ok(()) => {
                    assert(!pre.contains(ns[i as int])) by {
                        if pre.contains(ns[i as int]) {
                            assert(before.name_model(ns[i as int]) is Some);
                        }
                    }
                    assert(t0.name_at(ns[i as int]) is None) by {
                        assert(before.name_model(ns[i as int]) is None);
                    }
                    assert forall|k: Seq<char>| #[trigger] self.name_model(k) == if pre1.contains(k) {
                        Some((k, kind))
                    } else {
                        t0.name_model(k)
                    } by {
                        if k == ns[i as int] {
                            assert(pre1[i as int] == k);
                        } else {
                            assert(pre1.contains(k) == pre.contains(k)) by {
                                if pre1.contains(k) {
                                    let j = choose|j: int| 0 <= j < i + 1 && #[trigger] pre1[j] == k;
                                    assert(pre[j] == k);
                                }
                            }
                            assert(before.name_model(k) == self.name_model(k));
                        }
                    }
                    assert(t0.fresh(pre1)) by {
                        assert forall|a: int, b: int| 0 <= a < b < i + 1 implies pre1[a] != pre1[b] by {
                            if b == i {
                                assert(pre[a] == pre1[a]);
                            } else {
                                assert(pre[a] == pre1[a]);
                                assert(pre[b] == pre1[b]);
                            }
                        }
                    }
                },
                Err(e) => {
                    let ghost p = before.name_at(ns[i as int]).unwrap();
                    assert(!t0.fresh(pre1)) by {
                        if pre.contains(ns[i as int]) {
                            let j = choose|j: int| 0 <= j < i && #[trigger] pre[j] == ns[i as int];
                            assert(pre1[j] == pre1[i as int]);
                        } else {
                            assert(pre1[i as int] == ns[i as int]);
                        }
                    }
                    assert(before.name_model(ns[i as int]) == Some(p.model()));
                    assert(t0.first_clash(ns, kind, i as int, p));
                    assert(duplicate_of(kind, e, p));
                    assert(!t0.fresh(ns)) by {
                        if t0.fresh(ns) {
                            assert forall|a: int, b: int| 0 <= a < b < i + 1 implies pre1[a] != pre1[b] by {
                                assert(ns[a] != ns[b]);
                            }
                            assert forall|a: int| 0 <= a < i + 1 implies (#[trigger] t0.name_at(pre1[a])) is None by {
                                assert(t0.name_at(ns[a]) is None);
                            }
                        }
                    }
                    return Err(e);
                },
            }
            i = i + 1;
        }
        assert(ns.take(names.len() as int) =~= ns);
        Ok(())
    }

    /// Adds the name of each circuit of `circuits` at this level, failing at the first that is taken.
    pub fn check_duplicate_circuits(&mut self, circuits: &Vec<Circuit>) -> (r: Result<(), SymbolTableError>)
        requires
            old(self).wf(),
        ensures
            old(self).adds_names(circuit_names(circuits@), ParameterKind::Circuit, *final(self), r),
    {
        let mut names: Vec<String> = Vec::new();
        let mut i: usize = 0;
        while i < circuits.len()
            invariant
                i <= circuits.len(),
                names@.len() == i,
                forall|j: int| 0 <= j < i ==> (#[trigger] names@[j])@ == circuit_names(circuits@)[j],
            decreases circuits.len() - i,
        {
            names.push(circuits[i].circuit_name.name.clone());
            i = i + 1;
        }
        assert(string_views(names@) =~= circuit_names(circuits@));
        self.insert_names(&names, ParameterKind::Circuit)
    }

    /// Adds the name of each function of `functions` at this level, failing at the first that is taken.
    pub fn check_duplicate_functions(&mut self, functions: &Vec<Function>) -> (r: Result<(), SymbolTableError>)
        requires
            old(self).wf(),
        ensures
            old(self).adds_names(function_names(functions@), ParameterKind::Function, *final(self), r),
    {
        let mut names: Vec<String> = Vec::new();
        let mut i: usize = 0;
        while i < functions.len()
            invariant
                i <= functions.len(),
                names@.len() == i,
                forall|j: int| 0 <= j < i ==> (#[trigger] names@[j])@ == function_names(functions@)[j],
            decreases functions.len() - i,
        {
            names.push(functions[i].identifier.name.clone());
            i = i + 1;
        }
        assert(string_views(names@) =~= function_names(functions@));
        self.insert_names(&names, ParameterKind::Function)
    }
}

impl SymbolTable {
    /// `after` holds, for each name of `cs`, the type of the last circuit of that name.
    pub open spec fn stores_circuit_types(&self, cs: Seq<Circuit>, after: SymbolTable) -> bool {
        &&& forall|i: int| 0 <= i < cs.len() && (forall|j: int| i < j < cs.len() ==> circuit_names(cs)[j] != circuit_names(cs)[i])
            ==> ((#[trigger] after.circuit_at(circuit_names(cs)[i])) matches Some(ct) && self.circuit_type_of(cs[i], ct))
        &&& forall|k: Seq<char>| !circuit_names(cs).contains(k) ==> #[trigger] after.circuit_at(k) == self.circuit_at(k)
    }

    /// `after` holds, for each name of `fs`, the type of the last function of that name.
    pub open spec fn stores_function_types(&self, fs: Seq<Function>, after: SymbolTable) -> bool {
        &&& forall|i: int| 0 <= i < fs.len() && (forall|j: int| i < j < fs.len() ==> function_names(fs)[j] != function_names(fs)[i])
            ==> ((#[trigger] after.function_at(function_names(fs)[i])) matches Some(ft) && self.function_type_of(fs[i], None, ft))
        &&& forall|k: Seq<char>| !function_names(fs).contains(k) ==> #[trigger] after.function_at(k) == self.function_at(k)
    }

    /// `after` differs from this table at most in the circuit types of this level.
    pub open spec fn keeps_all_but_circuits(&self, after: SymbolTable) -> bool {
        &&& after.wf()
        &&& forall|k: Seq<char>| #[trigger] after.name_at(k) == self.name_at(k)
        &&& forall|k: Seq<char>| #[trigger] after.function_at(k) == self.function_at(k)
        &&& after.parent_table() == self.parent_table()
    }

    /// `after` differs from this table at most in the function types of this level.
    pub open spec fn keeps_all_but_functions(&self, after: SymbolTable) -> bool {
        &&& after.wf()
        &&& forall|k: Seq<char>| #[trigger] after.name_at(k) == self.name_at(k)
        &&& forall|k: Seq<char>| #[trigger] after.circuit_at(k) == self.circuit_at(k)
        &&& after.parent_table() == self.parent_table()
    }

    /// Builds the type of each circuit of `circuits` and stores it at this level;
    /// fails if a member type names no circuit.
    #[verifier::rlimit(100)]
    #[verifier::spinoff_prover]
    pub fn check_unknown_types_circuits(&mut self, circuits: &Vec<Circuit>) -> (r: Result<(), SymbolTableError>)
        requires
            old(self).wf(),
        ensures
            old(self).keeps_all_but_circuits(*final(self)),
            r is Ok <==> forall|i: int| 0 <= i < circuits@.len() ==> #[trigger] old(self).circuit_resolves(circuits@[i]),
            r is Ok ==> old(self).stores_circuit_types(circuits@, *final(self)),
            r matches Err(e) ==> e is UnknownType,
            r matches Err(e) ==> exists|i: int| 0 <= i < circuits@.len() && #[trigger] old(self).circuit_error(circuits@[i], e),
    {
        let ghost t0 = *self;
        let mut types: Vec<CircuitType> = Vec::new();
        let mut i: usize = 0;
        while i < circuits.len()
            invariant
                t0 == *self,
                t0.wf(),
                i <= circuits.len(),
                types@.len() == i,
                forall|j: int| 0 <= j < i ==> #[trigger] t0.circuit_resolves(circuits@[j]),
                forall|j: int| 0 <= j < i ==> #[trigger] t0.circuit_type_of(circuits@[j], types@[j]),
            decreases circuits.len() - i,
        {
            match CircuitType::new(self, &circuits[i]) {
                Ok(ct) => types.push(ct),
                Err(e) => {
                    assert(t0.circuit_error(circuits@[i as int], e));
                    return Err(e);
                },
            }
            i = i + 1;
        }
        let ghost all = types@;
        let mut i: usize = 0;
        while i < circuits.len()
            invariant
                t0 == *old(self),
                t0.wf(),
                i <= circuits.len(),
                all.len() == circuits.len(),
                types@ == all.skip(i as int),
                forall|j: int| 0 <= j < circuits.len() ==> #[trigger] t0.circuit_type_of(circuits@[j], all[j]),
                t0.keeps_all_but_circuits(*self),
                t0.stores_circuit_types(circuits@.take(i as int), *self),
            decreases circuits.len() - i,
        {
            let ghost before = *self;
            let circuit = &circuits[i];
            let circuit_type = types.remove(0);
            assert(circuit_type == all[i as int]);
            assert(types@ =~= all.skip(i + 1));
            self.insert_circuit(circuit.circuit_name.duplicate(), circuit_type);
            proof {
                let cs = circuits@.take(i + 1);
                let pre = circuits@.take(i as int);
                assert(cs =~= pre.push(circuits@[i as int]));
                assert(circuit_names(cs) =~= circuit_names(pre).push(circuits@[i as int].circuit_name.name@));
                assert forall|a: int| 0 <= a < cs.len() && (forall|j: int| a < j < cs.len() ==> circuit_names(cs)[j] != circuit_names(cs)[a])
                    implies ((#[trigger] self.circuit_at(circuit_names(cs)[a])) matches Some(ct) && t0.circuit_type_of(cs[a], ct)) by {
                    if a < i {
                        assert(circuit_names(cs)[i as int] != circuit_names(cs)[a]);
                        assert(circuit_names(pre)[a] == circuit_names(cs)[a]);
                        assert forall|j: int| a < j < pre.len() implies circuit_names(pre)[j] != circuit_names(pre)[a] by {
                            assert(circuit_names(cs)[j] != circuit_names(cs)[a]);
                        }
                        assert(before.circuit_at(circuit_names(pre)[a]) == self.circuit_at(circuit_names(cs)[a]));
                    }
                }
                assert forall|k: Seq<char>| !circuit_names(cs).contains(k) implies #[trigger] self.circuit_at(k) == t0.circuit_at(k) by {
                    assert(k != circuit_names(cs)[i as int]);
                    if circuit_names(pre).contains(k) {
                        let j = choose|j: int| 0 <= j < pre.len() && #[trigger] circuit_names(pre)[j] == k;
                        assert(circuit_names(cs)[j] == k);
                    }
                    assert(before.circuit_at(k) == self.circuit_at(k));
                }
            }
            i = i + 1;
        }
        assert(circuits@.take(circuits.len() as int) =~= circuits@);
        Ok(())
    }

    /// Builds the type of each function of `functions` and stores it at this level;
    /// fails if a parameter or result type names no circuit.
    #[verifier::rlimit(100)]
    #[verifier::spinoff_prover]
    pub fn check_unknown_types_functions(&mut self, functions: &Vec<Function>) -> (r: Result<(), SymbolTableError>)
        requires
            old(self).wf(),
        ensures
            old(self).keeps_all_but_functions(*final(self)),
            r is Ok <==> forall|i: int| 0 <= i < functions@.len() ==> #[trigger] old(self).function_resolves(functions@[i], None),
            r is Ok ==> old(self).stores_function_types(functions@, *final(self)),
            r matches Err(e) ==> e is UnknownType,
            r matches Err(e) ==> exists|i: int| 0 <= i < functions@.len() && #[trigger] old(self).function_error(functions@[i], None, e),
    {
        let ghost t0 = *self;
        let mut types: Vec<FunctionType> = Vec::new();
        let mut i: usize = 0;
        while i < functions.len()
            invariant
                t0 == *self,
                t0.wf(),
                i <= functions.len(),
                types@.len() == i,
                forall|j: int| 0 <= j < i ==> #[trigger] t0.function_resolves(functions@[j], None),
                forall|j: int| 0 <= j < i ==> #[trigger] t0.function_type_of(functions@[j], None, types@[j]),
            decreases functions.len() - i,
        {
            match FunctionType::new(self, &functions[i]) {
                Ok(ft) => types.push(ft),
                Err(e) => {
                    assert(t0.function_error(functions@[i as int], None, e));
                    return Err(e);
                },
            }
            i = i + 1;
        }
        let ghost all = types@;
        let mut i: usize = 0;
        while i < functions.len()
            invariant
                t0 == *old(self),
                t0.wf(),
                i <= functions.len(),
                all.len() == functions.len(),
                types@ == all.skip(i as int),
                forall|j: int| 0 <= j < functions.len() ==> #[trigger] t0.function_type_of(functions@[j], None, all[j]),
                t0.keeps_all_but_functions(*self),
                t0.stores_function_types(functions@.take(i as int), *self),
            decreases functions.len() - i,
        {
            let ghost before = *self;
            let function = &functions[i];
            let function_type = types.remove(0);
            assert(function_type == all[i as int]);
            assert(types@ =~= all.skip(i + 1));
            self.insert_function(function.identifier.duplicate(), function_type);
            proof {
                let cs = functions@.take(i + 1);
                let pre = functions@.take(i as int);
                assert(cs =~= pre.push(functions@[i as int]));
                assert(function_names(cs) =~= function_names(pre).push(functions@[i as int].identifier.name@));
                assert forall|a: int| 0 <= a < cs.len() && (forall|j: int| a < j < cs.len() ==> function_names(cs)[j] != function_names(cs)[a])
                    implies ((#[trigger] self.function_at(function_names(cs)[a])) matches Some(ct) && t0.function_type_of(cs[a], None, ct)) by {
                    if a < i {
                        assert(function_names(cs)[i as int] != function_names(cs)[a]);
                        assert(function_names(pre)[a] == function_names(cs)[a]);
                        assert forall|j: int| a < j < pre.len() implies function_names(pre)[j] != function_names(pre)[a] by {
                            assert(function_names(cs)[j] != function_names(cs)[a]);
                        }
                        assert(before.function_at(function_names(pre)[a]) == self.function_at(function_names(cs)[a]));
                    }
                }
                assert forall|k: Seq<char>| !function_names(cs).contains(k) implies #[trigger] self.function_at(k) == t0.function_at(k) by {
                    assert(k != function_names(cs)[i as int]);
                    if function_names(pre).contains(k) {
                        let j = choose|j: int| 0 <= j < pre.len() && #[trigger] function_names(pre)[j] == k;
                        assert(function_names(cs)[j] == k);
                    }
                    assert(before.function_at(k) == self.function_at(k));
                }
            }
            i = i + 1;
        }
        assert(functions@.take(functions.len() as int) =~= functions@);
        Ok(())
    }
}

pub open spec fn registers_name() -> Seq<char> {
    seq!['r', 'e', 'g', 'i', 's', 't', 'e', 'r', 's']
}

pub open spec fn record_name() -> Seq<char> {
    seq!['r', 'e', 'c', 'o', 'r', 'd']
}

pub open spec fn state_name() -> Seq<char> {
    seq!['s', 't', 'a', 't', 'e']
}

pub open spec fn state_leaf_name() -> Seq<char> {
    seq!['s', 't', 'a', 't', 'e', '_', 'l', 'e', 'a', 'f']
}

pub open spec fn input_name() -> Seq<char> {
    seq!['i', 'n', 'p', 'u', 't']
}

/// The circuit names that `insert_input` registers.
pub open spec fn input_circuit_names() -> Seq<Seq<char>> {
    seq![registers_name(), record_name(), state_name(), state_leaf_name(), input_name()]
}

impl SymbolTable {
    /// A function's signature reads the names of this level and the enclosing levels only.
    pub proof fn lemma_function_kept(a: SymbolTable, b: SymbolTable, f: Function, n: Option<Seq<char>>)
        requires
            forall|k: Seq<char>| #[trigger] a.name_at(k) == b.name_at(k),
            a.parent_table() == b.parent_table(),
        ensures
            a.function_resolves(f, n) == b.function_resolves(f, n),
            forall|t: Type| #![trigger a.resolve(t, n)] #![trigger b.resolve(t, n)] a.resolve(t, n) == b.resolve(t, n),
    {
        assert forall|t: Type| #![trigger a.resolve(t, n)] #![trigger b.resolve(t, n)] a.resolve(t, n) == b.resolve(t, n) by {
            match t {
                Type::Circuit(id) => {
                    assert(a.name_at(id.name@) == b.name_at(id.name@));
                },
                _ => {},
            }
        }
    }

    /// What building and storing the types of `program`'s circuits and
    /// functions does to this level.
    pub open spec fn checks_types(&self, program: Program, after: SymbolTable, r: Result<(), SymbolTableError>) -> bool {
        &&& (after.wf())
        &&& (forall|k: Seq<char>| #[trigger] after.name_at(k) == self.name_at(k))
        &&& (after.parent_table() == self.parent_table())
        &&& (r is Ok <==> {
                &&& forall|i: int| 0 <= i < program.circuits@.len() ==> #[trigger] self.circuit_resolves(program.circuits@[i])
                &&& forall|i: int| 0 <= i < program.functions@.len() ==> #[trigger] self.function_resolves(program.functions@[i], None)
            })
        &&& (r is Ok ==> self.stores_circuit_types(program.circuits@, after))
        &&& (r is Ok ==> self.stores_function_types(program.functions@, after))
        &&& (r matches Err(e) ==> e is UnknownType)
        &&& (r matches Err(e) ==> (exists|i: int| 0 <= i < program.circuits@.len() && #[trigger] self.circuit_error(program.circuits@[i], e))
                || (exists|i: int| 0 <= i < program.functions@.len() && #[trigger] self.function_error(program.functions@[i], None, e)))
        &&& (!(forall|i: int| 0 <= i < program.circuits@.len() ==> #[trigger] self.circuit_resolves(program.circuits@[i]))
                ==> forall|k: Seq<char>| #[trigger] after.function_at(k) == self.function_at(k))
    }

    /// Builds and stores the types of every circuit, then of every function, of `program`.
    pub fn check_unknown_types_program(&mut self, program: &Program) -> (r: Result<(), SymbolTableError>)
        requires
            old(self).wf(),
        ensures
            old(self).checks_types(*program, *final(self), r),
    {
        let ghost t0 = *self;
        self.check_unknown_types_circuits(&program.circuits)?;
        let ghost t1 = *self;
        let res = self.check_unknown_types_functions(&program.functions);
        proof {
            if res is Err {
                let e = res->Err_0;
                let i = choose|i: int| 0 <= i < program.functions@.len() && #[trigger] t1.function_error(program.functions@[i], None, e);
                let f = program.functions@[i];
                SymbolTable::lemma_function_kept(t0, t1, f, None);
                if exists|j: int| 0 <= j < f.input@.len() && #[trigger] t1.unknown_type_error(f.input@[j].type_, None, e)
                    && forall|a: int| 0 <= a < j ==> (#[trigger] t1.resolve(f.input@[a].type_, None)) is Some {
                    let j = choose|j: int| 0 <= j < f.input@.len() && #[trigger] t1.unknown_type_error(f.input@[j].type_, None, e)
                        && forall|a: int| 0 <= a < j ==> (#[trigger] t1.resolve(f.input@[a].type_, None)) is Some;
                    assert(t0.unknown_type_error(f.input@[j].type_, None, e));
                    assert forall|a: int| 0 <= a < j implies (#[trigger] t0.resolve(f.input@[a].type_, None)) is Some by {
                        assert(t1.resolve(f.input@[a].type_, None) is Some);
                    }
                } else {
                    assert(t0.unknown_type_error(f.output.unwrap(), None, e));
                    assert forall|a: int| 0 <= a < f.input@.len() implies (#[trigger] t0.resolve(f.input@[a].type_, None)) is Some by {
                        assert(t1.resolve(f.input@[a].type_, None) is Some);
                    }
                }
                assert(t0.function_error(f, None, e));
            }
            assert forall|i: int| #![trigger t0.function_resolves(program.functions@[i], None)] #![trigger t1.function_resolves(program.functions@[i], None)]
                0 <= i < program.functions@.len() implies
                t0.function_resolves(program.functions@[i], None) == t1.function_resolves(program.functions@[i], None) by {
                SymbolTable::lemma_function_kept(t0, t1, program.functions@[i], None);
            }
            assert forall|a: int| 0 <= a < program.circuits@.len() && (forall|j: int| a < j < program.circuits@.len() ==> circuit_names(program.circuits@)[j] != circuit_names(program.circuits@)[a])
                implies ((#[trigger] self.circuit_at(circuit_names(program.circuits@)[a])) matches Some(ct) && t0.circuit_type_of(program.circuits@[a], ct)) by {
                assert(t1.circuit_at(circuit_names(program.circuits@)[a]) == self.circuit_at(circuit_names(program.circuits@)[a]));
            }
            assert((forall|i: int| 0 <= i < program.functions@.len() ==> #[trigger] t0.function_resolves(program.functions@[i], None))
                == (forall|i: int| 0 <= i < program.functions@.len() ==> #[trigger] t1.function_resolves(program.functions@[i], None)));
            if res is Ok {
                assert forall|a: int| 0 <= a < program.functions@.len() && (forall|j: int| a < j < program.functions@.len() ==> function_names(program.functions@)[j] != function_names(program.functions@)[a])
                    implies ((#[trigger] self.function_at(function_names(program.functions@)[a])) matches Some(ft) && t0.function_type_of(program.functions@[a], None, ft)) by {
                    SymbolTable::lemma_function_kept(t0, t1, program.functions@[a], None);
                    assert(t1.function_type_of(program.functions@[a], None, self.function_at(function_names(program.functions@)[a]).unwrap()));
                    assert forall|i: int| 0 <= i < program.functions@[a].input@.len() implies
                        #[trigger] t0.resolve(program.functions@[a].input@[i].type_, None) == t1.resolve(program.functions@[a].input@[i].type_, None) by {
                        let t = program.functions@[a].input@[i].type_;
                        if let Type::Circuit(id) = t {
                            assert(t0.name_at(id.name@) == t1.name_at(id.name@));
                        }
                    }
                    if let Some(t) = program.functions@[a].output {
                        if let Type::Circuit(id) = t {
                            assert(t0.name_at(id.name@) == t1.name_at(id.name@));
                        }
                    }
                }
            }
        }
        res
    }

    /// Position of the first circuit of `circuits` named `name`.
    fn find_circuit(circuits: &Vec<Circuit>, name: &String) -> (r: Option<usize>)
        ensures
            match r {
                Some(i) => i < circuits.len() && circuits@[i as int].circuit_name.name@ == name@,
                None => !circuit_names(circuits@).contains(name@),
            },
    {
        let mut i: usize = 0;
        while i < circuits.len()
            invariant
                i <= circuits.len(),
                forall|j: int| 0 <= j < i ==> circuit_names(circuits@)[j] != name@,
            decreases circuits.len() - i,
        {
            if circuits[i].circuit_name.name == *name {
                return Some(i);
            }
            i = i + 1;
        }
        None
    }

    /// Position of the first function of `functions` named `name`.
    fn find_function(functions: &Vec<Function>, name: &String) -> (r: Option<usize>)
        ensures
            match r {
                Some(i) => i < functions.len() && functions@[i as int].identifier.name@ == name@,
                None => !function_names(functions@).contains(name@),
            },
    {
        let mut i: usize = 0;
        while i < functions.len()
            invariant
                i <= functions.len(),
                forall|j: int| 0 <= j < i ==> function_names(functions@)[j] != name@,
            decreases functions.len() - i,
        {
            if functions[i].identifier.name == *name {
                return Some(i);
            }
            i = i + 1;
        }
        None
    }

    /// What binding `symbol` of `program` does to this level: `after` is the
    /// level afterwards and `r` the result.
    pub open spec fn imports_symbol(&self, symbol: ImportSymbol, program: Program, after: SymbolTable, r: Result<(), SymbolTableError>) -> bool {
        &&& symbol.star() ==> exists|mid: SymbolTable, rc: Result<(), SymbolTableError>| {
            &&& #[trigger] self.adds_names(circuit_names(program.circuits@), ParameterKind::Circuit, mid, rc)
            &&& rc is Err ==> r == rc && after == mid
            &&& rc is Ok ==> mid.adds_names(function_names(program.functions@), ParameterKind::Function, after, r)
        }
        &&& !symbol.star() ==> {
            let sym = symbol.symbol.name@;
            let bound = symbol.bound_name();
            let kind = if circuit_names(program.circuits@).contains(sym) {
                ParameterKind::Circuit
            } else {
                ParameterKind::Function
            };
            if circuit_names(program.circuits@).contains(sym) || function_names(program.functions@).contains(sym) {
                &&& match self.name_at(bound) {
                    None => r is Ok,
                    Some(p) => r matches Err(e) && duplicate_of(kind, e, p),
                }
                &&& forall|k: Seq<char>| #[trigger] after.name_model(k) == if k == bound {
                    Some((sym, kind))
                } else {
                    self.name_model(k)
                }
            } else {
                &&& r matches Err(SymbolTableError::UnknownSymbol(s, pn)) && s@ == sym && pn@ == program.name.name@
                &&& after == *self
            }
        }
    }

    /// Binds one imported symbol of `program` at this level: for `*` every
    /// circuit name, then every function name; otherwise the circuit of that
    /// name, else the function of that name, under its alias if it has one.
    pub fn insert_import_symbol(&mut self, symbol: &ImportSymbol, program: &Program) -> (r: Result<(), SymbolTableError>)
        requires
            old(self).wf(),
        ensures
            final(self).wf(),
            old(self).types_kept(*final(self)),
            old(self).imports_symbol(*symbol, *program, *final(self), r),
    {
        if symbol.is_star() {
            let ghost t0 = *self;
            let rc = self.check_duplicate_circuits(&program.circuits);
            let ghost mid = *self;
            match rc {
                Ok(()) => {
                    let r = self.check_duplicate_functions(&program.functions);
                    assert(t0.adds_names(circuit_names(program.circuits@), ParameterKind::Circuit, mid, Ok(())));
                    r
                },
                Err(e) => {
                    assert(t0.adds_names(circuit_names(program.circuits@), ParameterKind::Circuit, mid, Err(e)));
                    Err(e)
                },
            }
        } else {
            let identifier = match &symbol.alias {
                Some(a) => a.name.clone(),
                None => symbol.symbol.name.clone(),
            };
            match SymbolTable::find_circuit(&program.circuits, &symbol.symbol.name) {
                Some(i) => {
                    proof {
                        assert(circuit_names(program.circuits@)[i as int] == symbol.symbol.name@);
                    }
                    self.insert_circuit_name(identifier, ParameterType::from_circuit(&program.circuits[i]))
                },
                None => match SymbolTable::find_function(&program.functions, &symbol.symbol.name) {
                    Some(i) => {
                        proof {
                            assert(function_names(program.functions@)[i as int] == symbol.symbol.name@);
                        }
                        self.insert_function_name(identifier, ParameterType::from_function(&program.functions[i]))
                    },
                    None => Err(SymbolTableError::UnknownSymbol(symbol.symbol.name.clone(), program.name.name.clone())),
                },
            }
        }
    }

    /// The type of an input section: one member variable per declared value.
    fn section_type(&self, name: String, values: &Vec<FunctionInput>) -> (r: Result<CircuitType, SymbolTableError>)
        requires
            self.wf(),
        ensures
            match r {
                Ok(ct) => self.section_type_of(name@, values@, ct) && self.section_resolves(values@),
                Err(e) => !self.section_resolves(values@) && e is UnknownType && self.section_error(values@, e),
            },
    {
        let mut variables: Vec<CircuitVariableType> = Vec::new();
        let mut i: usize = 0;
        while i < values.len()
            invariant
                self.wf(),
                i <= values.len(),
                variables@.len() == i,
                forall|j: int| 0 <= j < i ==> {
                    &&& (#[trigger] variables@[j]).identifier.name@ == values@[j].identifier.name@
                    &&& self.resolve(values@[j].type_, None) == Some(variables@[j].type_.model())
                },
            decreases values.len() - i,
        {
            match self.resolve_type(&values[i].type_, None) {
                Ok(t) => variables.push(CircuitVariableType { identifier: values[i].identifier.duplicate(), type_: t }),
                Err(e) => {
                    assert(self.resolve(values@[i as int].type_, None) is None);
                    assert(self.unknown_type_error(values@[i as int].type_, None, e));
                    assert forall|a: int| 0 <= a < i implies (#[trigger] self.resolve(values@[a].type_, None)) is Some by {
                        assert(self.resolve(values@[a].type_, None) == Some(variables@[a].type_.model()));
                    }
                    assert(self.section_error(values@, e));
                    return Err(e);
                },
            }
            i = i + 1;
        }
        assert forall|j: int| 0 <= j < values@.len() implies (#[trigger] self.resolve(values@[j].type_, None)) is Some by {
            assert(self.resolve(values@[j].type_, None) == Some(variables@[j].type_.model()));
        }
        Ok(CircuitType { identifier: Identifier::new(name), variables, functions: Vec::new() })
    }

    /// `e` reports the first declared value of an input section whose type does not resolve.
    pub open spec fn section_error(&self, values: Seq<FunctionInput>, e: SymbolTableError) -> bool {
        exists|j: int| 0 <= j < values.len() && #[trigger] self.unknown_type_error(values[j].type_, None, e)
            && forall|i: int| 0 <= i < j ==> (#[trigger] self.resolve(values[i].type_, None)) is Some
    }

    /// Every declared value of an input section has a type that resolves.
    pub open spec fn section_resolves(&self, values: Seq<FunctionInput>) -> bool {
        forall|j: int| 0 <= j < values.len() ==> (#[trigger] self.resolve(values[j].type_, None)) is Some
    }

    /// `ct` is the type of the input section `name` with the declared `values`.
    pub open spec fn section_type_of(&self, name: Seq<char>, values: Seq<FunctionInput>, ct: CircuitType) -> bool {
        &&& ct.identifier.name@ == name
        &&& ct.variables@.len() == values.len()
        &&& forall|j: int| 0 <= j < values.len() ==> {
            &&& (#[trigger] ct.variables@[j]).identifier.name@ == values[j].identifier.name@
            &&& self.resolve(values[j].type_, None) == Some(ct.variables@[j].type_.model())
        }
        &&& ct.functions@.len() == 0
    }

    /// `ct` is the type of the `input` keyword: one member per section.
    pub open spec fn is_input_type(ct: CircuitType) -> bool {
        &&& ct.identifier.name@ == input_name()
        &&& ct.variables@.len() == 4
        &&& forall|j: int| 0 <= j < 4 ==> {
            &&& (#[trigger] ct.variables@[j]).identifier.name@ == input_circuit_names()[j]
            &&& ct.variables@[j].type_.model() == TypeModel::Circuit(input_circuit_names()[j])
        }
        &&& ct.functions@.len() == 0
    }

    /// The member of the `input` type for the section `ct`.
    fn section_variable(ct: &CircuitType) -> (r: CircuitVariableType)
        ensures
            r.identifier.name@ == ct.identifier.name@,
            r.type_.model() == TypeModel::Circuit(ct.identifier.name@),
    {
        CircuitVariableType { identifier: ct.identifier.duplicate(), type_: ResolvedType::Circuit(ct.identifier.duplicate()) }
    }

    /// Registers the circuit types of the four input sections and of the
    /// `input` keyword that holds them.
    pub fn insert_input(&mut self, input: &Input) -> (r: Result<(), SymbolTableError>)
        requires
            old(self).wf(),
        ensures
            final(self).wf(),
            r is Ok <==> {
                &&& old(self).section_resolves(input.registers@)
                &&& old(self).section_resolves(input.record@)
                &&& old(self).section_resolves(input.state@)
                &&& old(self).section_resolves(input.state_leaf@)
            },
            r is Err ==> *final(self) == *old(self),
            r matches Err(e) ==> e is UnknownType,
            !old(self).section_resolves(input.registers@) ==> (r matches Err(e) && old(self).section_error(input.registers@, e)),
            old(self).section_resolves(input.registers@) && !old(self).section_resolves(input.record@)
                ==> (r matches Err(e) && old(self).section_error(input.record@, e)),
            old(self).section_resolves(input.registers@) && old(self).section_resolves(input.record@)
                && !old(self).section_resolves(input.state@) ==> (r matches Err(e) && old(self).section_error(input.state@, e)),
            old(self).section_resolves(input.registers@) && old(self).section_resolves(input.record@)
                && old(self).section_resolves(input.state@) && !old(self).section_resolves(input.state_leaf@)
                ==> (r matches Err(e) && old(self).section_error(input.state_leaf@, e)),
            r is Ok ==> {
                &&& final(self).circuit_at(registers_name()) matches Some(ct) && old(self).section_type_of(registers_name(), input.registers@, ct)
                &&& final(self).circuit_at(record_name()) matches Some(ct) && old(self).section_type_of(record_name(), input.record@, ct)
                &&& final(self).circuit_at(state_name()) matches Some(ct) && old(self).section_type_of(state_name(), input.state@, ct)
                &&& final(self).circuit_at(state_leaf_name()) matches Some(ct) && old(self).section_type_of(state_leaf_name(), input.state_leaf@, ct)
                &&& final(self).circuit_at(input_name()) matches Some(ct) && SymbolTable::is_input_type(ct)
            },
            r is Ok ==> forall|k: Seq<char>| !input_circuit_names().contains(k) ==> #[trigger] final(self).circuit_at(k) == old(self).circuit_at(k),
            forall|k: Seq<char>| #[trigger] final(self).name_at(k) == old(self).name_at(k),
            forall|k: Seq<char>| #[trigger] final(self).function_at(k) == old(self).function_at(k),
            final(self).parent_table() == old(self).parent_table(),
    {
        proof {
            reveal_strlit("registers");
            reveal_strlit("record");
            reveal_strlit("state");
            reveal_strlit("state_leaf");
            reveal_strlit("input");
        }
        let registers_type = self.section_type("registers".to_owned(), &input.registers)?;
        let record_type = self.section_type("record".to_owned(), &input.record)?;
        let state_type = self.section_type("state".to_owned(), &input.state)?;
        let state_leaf_type = self.section_type("state_leaf".to_owned(), &input.state_leaf)?;
        assert("registers"@ =~= registers_name());
        assert("record"@ =~= record_name());
        assert("state"@ =~= state_name());
        assert("state_leaf"@ =~= state_leaf_name());
        assert("input"@ =~= input_name());

        let registers_variable = SymbolTable::section_variable(&registers_type);
        let record_variable = SymbolTable::section_variable(&record_type);
        let state_variable = SymbolTable::section_variable(&state_type);
        let state_leaf_variable = SymbolTable::section_variable(&state_leaf_type);
        let input_type = CircuitType {
            identifier: Identifier::new("input".to_owned()),
            variables: vec![registers_variable, record_variable, state_variable, state_leaf_variable],
            functions: Vec::new(),
        };
        assert(SymbolTable::is_input_type(input_type));

        self.insert_circuit(registers_type.identifier.duplicate(), registers_type);
        self.insert_circuit(record_type.identifier.duplicate(), record_type);
        self.insert_circuit(state_type.identifier.duplicate(), state_type);
        self.insert_circuit(state_leaf_type.identifier.duplicate(), state_leaf_type);
        self.insert_circuit(input_type.identifier.duplicate(), input_type);
        Ok(())
    }
}

/// The modules and built-in packages that imports can name. Each module
/// imports only modules listed before it, so resolving imports ends.
#[derive(Debug, Clone)]
pub struct ImportParser {
    imports: Vec<(String, Program)>,
    core_packages: Vec<(String, CorePackage)>,
}

/// The module names that `statements` import from.
pub open spec fn imported_modules(statements: Seq<ImportStatement>) -> Set<Seq<char>> {
    Set::new(|m: Seq<char>| exists|i: int, j: int|
        0 <= i < statements.len() && 0 <= j < statements[i].symbols@.len() && #[trigger] statements[i].symbols@[j].0@ == m)
}

impl ImportParser {
    /// Module `k`, if it is known.
    pub closed spec fn module(&self, k: Seq<char>) -> Option<Program> {
        lookup(self.imports@, k)
    }

    /// Built-in package `k`, if it is known.
    pub closed spec fn core_package(&self, k: Seq<char>) -> Option<CorePackage> {
        lookup(self.core_packages@, k)
    }

    /// Every module that `program` imports from is listed before position `bound`.
    pub closed spec fn imports_below(&self, program: Program, bound: int) -> bool {
        forall|i: int| 0 <= i < self.imports@.len() && #[trigger] imported_modules(program.imports@).contains(self.imports@[i].0@)
            ==> i < bound
    }

    pub closed spec fn wf(&self) -> bool {
        &&& keys_unique(self.imports@)
        &&& keys_unique(self.core_packages@)
        &&& forall|i: int| 0 <= i < self.imports@.len() ==> self.imports_below(#[trigger] self.imports@[i].1, i)
        &&& forall|i: int, m: Seq<char>| 0 <= i < self.imports@.len() && #[trigger] imported_modules(self.imports@[i].1.imports@).contains(m)
            ==> has_key(self.imports@, m)
    }

    /// Every module that `statement` imports from is listed before position `bound`.
    pub closed spec fn statement_below(&self, statement: ImportStatement, bound: int) -> bool {
        forall|i: int, j: int| #![trigger self.imports@[i], statement.symbols@[j]]
            0 <= i < self.imports@.len() && 0 <= j < statement.symbols@.len() && self.imports@[i].0@ == statement.symbols@[j].0@
            ==> i < bound
    }

    pub closed spec fn len(&self) -> int {
        self.imports@.len() as int
    }

    /// An empty parser.
    pub fn new() -> (r: ImportParser)
        ensures
            r.wf(),
            forall|k: Seq<char>| #[trigger] r.module(k) is None,
            forall|k: Seq<char>| #[trigger] r.core_package(k) is None,
    {
        ImportParser { imports: Vec::new(), core_packages: Vec::new() }
    }

    /// Adds module `name`; refused (returned) when the name is taken or the
    /// module imports a module that is not listed yet.
    pub fn insert_import(&mut self, name: String, program: Program) -> (r: Result<(), Program>)
        requires
            old(self).wf(),
        ensures
            final(self).wf(),
            r is Ok <==> old(self).module(name@) is None && forall|m: Seq<char>|
                #[trigger] imported_modules(program.imports@).contains(m) ==> old(self).module(m) is Some,
            r is Ok ==> forall|k: Seq<char>| #[trigger] final(self).module(k) == if k == name@ {
                Some(program)
            } else {
                old(self).module(k)
            },
            r is Err ==> *final(self) == *old(self),
            forall|k: Seq<char>| #[trigger] final(self).core_package(k) == old(self).core_package(k),
    {
        if find_key(&self.imports, &name).is_some() {
            return Err(program);
        }
        let mut i: usize = 0;
        while i < program.imports.len()
            invariant
                self.wf(),
                self == old(self),
                i <= program.imports.len(),
                forall|a: int, b: int| 0 <= a < i && 0 <= b < program.imports@[a].symbols@.len()
                    ==> has_key(self.imports@, #[trigger] program.imports@[a].symbols@[b].0@),
            decreases program.imports.len() - i,
        {
            let statement = &program.imports[i];
            let mut j: usize = 0;
            while j < statement.symbols.len()
                invariant
                    self.wf(),
                    self == old(self),
                    i < program.imports.len(),
                    statement == program.imports@[i as int],
                    j <= statement.symbols.len(),
                    forall|a: int, b: int| 0 <= a < i && 0 <= b < program.imports@[a].symbols@.len()
                        ==> has_key(self.imports@, #[trigger] program.imports@[a].symbols@[b].0@),
                    forall|b: int| 0 <= b < j ==> has_key(self.imports@, #[trigger] statement.symbols@[b].0@),
                decreases statement.symbols.len() - j,
            {
                if find_key(&self.imports, &statement.symbols[j].0).is_none() {
                    assert(imported_modules(program.imports@).contains(statement.symbols@[j as int].0@));
                    return Err(program);
                }
                j = j + 1;
            }
            i = i + 1;
        }
        let ghost s0 = self.imports@;
        proof {
            assert forall|m: Seq<char>| #[trigger] imported_modules(program.imports@).contains(m) implies has_key(s0, m) by {
                let (a, b) = choose|a: int, b: int| 0 <= a < program.imports@.len() && 0 <= b < program.imports@[a].symbols@.len()
                    && #[trigger] program.imports@[a].symbols@[b].0@ == m;
                assert(has_key(s0, program.imports@[a].symbols@[b].0@));
            }
        }
        let ghost n = name@;
        let ghost prog = program;
        self.imports.push((name, program));
        proof {
            let s1 = self.imports@;
            assert(!has_key(s0, n));
            assert(s1[s0.len() as int].0@ == n);
            assert forall|a: int, m: Seq<char>| 0 <= a < s1.len() && #[trigger] imported_modules(s1[a].1.imports@).contains(m)
                implies has_key(s1, m) by {
                assert(has_key(s0, m));
                let j = choose|j: int| 0 <= j < s0.len() && s0[j].0@ == m;
                assert(s1[j].0@ == m);
            }
            assert forall|a: int| 0 <= a < s1.len() implies self.imports_below(#[trigger] s1[a].1, a) by {
                let p = s1[a].1;
                assert forall|b: int| 0 <= b < s1.len() && #[trigger] imported_modules(p.imports@).contains(s1[b].0@) implies b < a by {
                    if b == s0.len() {
                        assert(has_key(s0, s1[b].0@));
                    } else if a < s0.len() {
                        assert(s0[b] == s1[b]);
                        assert(s0[a] == s1[a]);
                    }
                }
            }
            lemma_lookup_at(s1, s0.len() as int);
            assert forall|k: Seq<char>| k != n implies #[trigger] lookup(s1, k) == lookup(s0, k) by {
                if has_key(s0, k) {
                    let j = choose|j: int| 0 <= j < s0.len() && s0[j].0@ == k;
                    lemma_lookup_at(s0, j);
                    lemma_lookup_at(s1, j);
                } else {
                    assert(!has_key(s1, k));
                }
            }
        }
        Ok(())
    }
}

impl ImportParser {
    /// Position of module `name`.
    fn position(&self, name: &String) -> (r: Option<usize>)
        requires
            self.wf(),
        ensures
            match r {
                Some(i) => i < self.imports@.len() && self.imports@[i as int].0@ == name@
                    && self.module(name@) == Some(self.imports@[i as int].1),
                None => self.module(name@) is None,
            },
    {
        let r = find_key(&self.imports, name);
        if let Some(i) = r {
            proof {
                lemma_lookup_at(self.imports@, i as int);
            }
        }
        r
    }

    /// Module `name`, if it is known.
    pub fn get_import(&self, name: &String) -> (r: Option<&Program>)
        requires
            self.wf(),
        ensures
            match r {
                Some(p) => self.module(name@) == Some(*p),
                None => self.module(name@) is None,
            },
    {
        match self.position(name) {
            Some(i) => Some(&self.imports[i].1),
            None => None,
        }
    }

    /// Built-in package `name`, if it is known.
    pub fn get_core_package(&self, name: &String) -> (r: Option<&CorePackage>)
        requires
            self.wf(),
        ensures
            match r {
                Some(p) => self.core_package(name@) == Some(*p),
                None => self.core_package(name@) is None,
            },
    {
        match find_key(&self.core_packages, name) {
            Some(i) => {
                proof {
                    lemma_lookup_at(self.core_packages@, i as int);
                }
                Some(&self.core_packages[i].1)
            },
            None => None,
        }
    }

    /// Adds built-in package `name`; returns the one it replaced.
    pub fn insert_core_package(&mut self, name: String, package: CorePackage) -> (r: Option<CorePackage>)
        requires
            old(self).wf(),
        ensures
            final(self).wf(),
            r == old(self).core_package(name@),
            forall|k: Seq<char>| #[trigger] final(self).core_package(k) == if k == name@ {
                Some(package)
            } else {
                old(self).core_package(k)
            },
            forall|k: Seq<char>| #[trigger] final(self).module(k) == old(self).module(k),
    {
        insert_key(&mut self.core_packages, name, package)
    }
}

/// Whether `v` holds `k`.
fn contains_name(v: &Vec<String>, k: &String) -> (r: bool)
    ensures
        r == exists|i: int| 0 <= i < v@.len() && #[trigger] v@[i]@ == k@,
{
    let mut i: usize = 0;
    while i < v.len()
        invariant
            i <= v.len(),
            forall|j: int| 0 <= j < i ==> #[trigger] v@[j]@ != k@,
        decreases v.len() - i,
    {
        if v[i] == *k {
            return true;
        }
        i = i + 1;
    }
    false
}

impl SymbolTable {
    /// `after` is this table with circuit `c`'s name bound at this level.
    pub open spec fn binds_circuit_name(&self, c: Circuit, after: SymbolTable) -> bool {
        &&& after.wf()
        &&& forall|k: Seq<char>| #[trigger] after.name_model(k) == if k == c.circuit_name.name@ {
            Some((k, ParameterKind::Circuit))
        } else {
            self.name_model(k)
        }
        &&& forall|k: Seq<char>| #[trigger] after.circuit_at(k) == self.circuit_at(k)
        &&& forall|k: Seq<char>| #[trigger] after.function_at(k) == self.function_at(k)
        &&& after.parent_table() == self.parent_table()
    }

    /// `after` is this table with the type of circuit `c` stored at this level.
    pub open spec fn stores_circuit_type(&self, c: Circuit, after: SymbolTable) -> bool {
        &&& after.wf()
        &&& after.circuit_at(c.circuit_name.name@) matches Some(ct) && self.circuit_type_of(c, ct)
        &&& forall|k: Seq<char>| k != c.circuit_name.name@ ==> #[trigger] after.circuit_at(k) == self.circuit_at(k)
        &&& forall|k: Seq<char>| #[trigger] after.name_at(k) == self.name_at(k)
        &&& forall|k: Seq<char>| #[trigger] after.function_at(k) == self.function_at(k)
        &&& after.parent_table() == self.parent_table()
    }

    /// Binding `cs` in order: each name is bound, failing with the entry it
    /// meets if it is taken; then its type is built against the names bound so
    /// far, failing on a member type that does not resolve, and stored.
    pub open spec fn core_outcome(&self, cs: Seq<Circuit>, after: SymbolTable, r: Result<(), SymbolTableError>) -> bool
        decreases cs.len(),
    {
        if cs.len() == 0 {
            r is Ok && after == *self
        } else {
            let c = cs[0];
            exists|t1: SymbolTable| #[trigger] self.binds_circuit_name(c, t1) && match self.name_at(c.circuit_name.name@) {
                Some(p) => r == Err::<(), SymbolTableError>(SymbolTableError::DuplicateCircuit(p)) && after == t1,
                None => if t1.circuit_resolves(c) {
                    exists|t2: SymbolTable| #[trigger] t1.stores_circuit_type(c, t2) && t2.core_outcome(cs.skip(1), after, r)
                } else {
                    (r matches Err(e) && t1.circuit_error(c, e)) && after == t1
                },
            }
        }
    }

    /// What binding the circuits of a built-in package does to this level.
    pub open spec fn adds_core_package(&self, package: CorePackage, after: SymbolTable, r: Result<(), SymbolTableError>) -> bool {
        let cn = circuit_names(package.circuits@);
        &&& after.wf()
        &&& after.parent_table() == self.parent_table()
        &&& r is Ok ==> self.fresh(cn)
        &&& r is Ok ==> forall|i: int| 0 <= i < package.circuits@.len() ==> {
            &&& after.name_model(#[trigger] cn[i]) == Some((cn[i], ParameterKind::Circuit))
            &&& after.circuit_at(cn[i]) matches Some(ct) && ct.identifier.name@ == cn[i]
        }
        &&& r is Ok ==> forall|k: Seq<char>| !cn.contains(k) ==> {
            &&& #[trigger] after.name_at(k) == self.name_at(k)
            &&& after.circuit_at(k) == self.circuit_at(k)
        }
        &&& self.core_outcome(package.circuits@, after, r)
        &&& r matches Err(e) ==> (e is DuplicateCircuit && !self.fresh(cn)) || e is UnknownType
    }

    /// Binds the name and then the type of each circuit of a built-in package.
    pub fn insert_core_package(&mut self, package: &CorePackage) -> (r: Result<(), SymbolTableError>)
        requires
            old(self).wf(),
        ensures
            old(self).adds_core_package(*package, *final(self), r),
    {
        let mut i: usize = 0;
        assert(circuit_names(package.circuits@).take(0) =~= Seq::<Seq<char>>::empty());
        assert(package.circuits@.skip(0) =~= package.circuits@);
        while i < package.circuits.len()
            invariant
                self.wf(),
                self.parent_table() == old(self).parent_table(),
                i <= package.circuits.len(),
                old(self).fresh(circuit_names(package.circuits@).take(i as int)),
                forall|j: int| 0 <= j < i ==> {
                    &&& self.name_model(#[trigger] circuit_names(package.circuits@)[j])
                        == Some((circuit_names(package.circuits@)[j], ParameterKind::Circuit))
                    &&& self.circuit_at(circuit_names(package.circuits@)[j]) matches Some(ct)
                        && ct.identifier.name@ == circuit_names(package.circuits@)[j]
                },
                forall|k: Seq<char>| !circuit_names(package.circuits@).take(i as int).contains(k) ==> {
                    &&& #[trigger] self.name_at(k) == old(self).name_at(k)
                    &&& self.circuit_at(k) == old(self).circuit_at(k)
                },
                forall|after: SymbolTable, r: Result<(), SymbolTableError>| #[trigger] self.core_outcome(package.circuits@.skip(i as int), after, r)
                    ==> old(self).core_outcome(package.circuits@, after, r),
            decreases package.circuits.len() - i,
        {
            let circuit = &package.circuits[i];
            let ghost cn = circuit_names(package.circuits@);
            let ghost pre = cn.take(i as int);
            let ghost pre1 = cn.take(i + 1);
            let ghost before = *self;
            let ghost rest = package.circuits@.skip(i as int);
            assert(cn[i as int] == circuit.circuit_name.name@);
            assert(pre1 =~= pre.push(cn[i as int]));
            assert(rest[0] == *circuit);
            assert(rest.skip(1) =~= package.circuits@.skip(i + 1));
            let rn = self.insert_circuit_name(circuit.circuit_name.name.clone(), ParameterType::from_circuit(circuit));
            let ghost t1 = *self;
            assert(before.binds_circuit_name(*circuit, t1));
            match rn {
                Ok(()) => {},
                Err(e) => {
                    proof {
                        assert(before.core_outcome(rest, t1, Err(e)));
                        assert(!old(self).fresh(pre1)) by {
                            if pre.contains(cn[i as int]) {
                                let j = choose|j: int| 0 <= j < pre.len() && pre[j] == cn[i as int];
                                assert(pre1[j] == pre1[i as int]);
                            } else {
                                assert(pre1[i as int] == cn[i as int]);
                                assert(old(self).name_at(cn[i as int]) is Some);
                            }
                        }
                        if old(self).fresh(cn) {
                            assert forall|a: int, b: int| 0 <= a < b < pre1.len() implies pre1[a] != pre1[b] by {
                                assert(cn[a] != cn[b]);
                            }
                            assert forall|a: int| 0 <= a < pre1.len() implies (#[trigger] old(self).name_at(pre1[a])) is None by {
                                assert(old(self).name_at(cn[a]) is None);
                            }
                        }
                    }
                    return Err(e);
                },
            }
            let circuit_type = match CircuitType::new(self, circuit) {
                Ok(ct) => ct,
                Err(e) => {
                    proof {
                        assert(before.core_outcome(rest, t1, Err(e)));
                    }
                    return Err(e);
                },
            };
            let ghost ct = circuit_type;
            self.insert_circuit(circuit.circuit_name.duplicate(), circuit_type);
            proof {
                assert(t1.stores_circuit_type(*circuit, *self));
                let t2 = *self;
                assert forall|after: SymbolTable, r: Result<(), SymbolTableError>| #[trigger] t2.core_outcome(package.circuits@.skip(i + 1), after, r)
                    implies old(self).core_outcome(package.circuits@, after, r) by {
                    assert(before.core_outcome(rest, after, r));
                }
                assert(!pre.contains(cn[i as int])) by {
                    if pre.contains(cn[i as int]) {
                        let j = choose|j: int| 0 <= j < pre.len() && pre[j] == cn[i as int];
                        assert(before.name_model(cn[j]) is Some);
                    }
                }
                assert(old(self).name_at(cn[i as int]) is None);
                assert forall|a: int, b: int| 0 <= a < b < pre1.len() implies pre1[a] != pre1[b] by {
                    assert(pre1[a] == cn[a]);
                    if b < i {
                        assert(pre[a] != pre[b]);
                    }
                }
                assert forall|a: int| 0 <= a < pre1.len() implies (#[trigger] old(self).name_at(pre1[a])) is None by {
                    if a < i {
                        assert(pre[a] == pre1[a]);
                    }
                }
                assert forall|k: Seq<char>| !pre1.contains(k) implies {
                    &&& #[trigger] self.name_at(k) == old(self).name_at(k)
                    &&& self.circuit_at(k) == old(self).circuit_at(k)
                } by {
                    assert(k != pre1[i as int]);
                    if pre.contains(k) {
                        let j = choose|j: int| 0 <= j < pre.len() && pre[j] == k;
                        assert(pre1[j] == k);
                    }
                }
                assert forall|j: int| 0 <= j < i + 1 implies {
                    &&& self.name_model(#[trigger] cn[j]) == Some((cn[j], ParameterKind::Circuit))
                    &&& self.circuit_at(cn[j]) matches Some(ct) && ct.identifier.name@ == cn[j]
                } by {
                    if j < i {
                        assert(pre.contains(cn[j])) by {
                            assert(pre[j] == cn[j]);
                        }
                        assert(cn[j] != cn[i as int]);
                    }
                }
            }
            i = i + 1;
        }
        assert(circuit_names(package.circuits@).take(package.circuits.len() as int) =~= circuit_names(package.circuits@));
        assert(package.circuits@.skip(i as int).len() == 0);
        assert(self.core_outcome(package.circuits@.skip(i as int), *self, Ok(())));
        Ok(())
    }

    /// Checking the modules of `symbols` in order, skipping those in
    /// `checked`: a missing module fails with its name; a module without
    /// imports of its own has its names, then its types checked, once.
    pub open spec fn modules_outcome(
        &self,
        symbols: Seq<(String, ImportSymbol)>,
        checked: Set<Seq<char>>,
        import_parser: ImportParser,
        after: SymbolTable,
        r: Result<(), SymbolTableError>,
    ) -> bool
        decreases symbols.len(),
    {
        if symbols.len() == 0 {
            r is Ok && after == *self
        } else if checked.contains(symbols[0].0@) {
            self.modules_outcome(symbols.skip(1), checked, import_parser, after, r)
        } else {
            match import_parser.module(symbols[0].0@) {
                None => r == Err::<(), SymbolTableError>(SymbolTableError::UnknownPackage(symbols[0].0)) && after == *self,
                Some(p) => p.imports@.len() == 0 ==> exists|t1: SymbolTable, r1: Result<(), SymbolTableError>| {
                    &&& #[trigger] self.checks_names(p, t1, r1)
                    &&& r1 is Err ==> r == r1 && after == t1
                    &&& r1 is Ok ==> exists|t2: SymbolTable, r2: Result<(), SymbolTableError>| {
                        &&& #[trigger] t1.checks_types(p, t2, r2)
                        &&& r2 is Err ==> r == r2 && after == t2
                        &&& r2 is Ok ==> t2.modules_outcome(symbols.skip(1), checked.insert(symbols[0].0@), import_parser, after, r)
                    }
                },
            }
        }
    }

    /// What checking the modules that `import` names does to this level.
    pub open spec fn imports_modules(&self, import: ImportStatement, import_parser: ImportParser, after: SymbolTable, r: Result<(), SymbolTableError>) -> bool {
        &&& after.wf()
        &&& after.parent_table() == self.parent_table()
        &&& r is Ok ==> forall|j: int| 0 <= j < import.symbols@.len() ==> import_parser.module(#[trigger] import.symbols@[j].0@) is Some
        &&& r matches Err(SymbolTableError::UnknownPackage(n)) ==> import_parser.module(n@) is None
        &&& import.symbols@.len() == 0 ==> r is Ok && after == *self
        &&& self.modules_outcome(import.symbols@, Set::empty(), import_parser, after, r)
        &&& import.symbols@.len() > 0 && import_parser.module(import.symbols@[0].0@) is None ==> {
            &&& r matches Err(SymbolTableError::UnknownPackage(n)) && n@ == import.symbols@[0].0@
            &&& after == *self
        }
    }

    /// What checking one import statement does: a built-in package is bound,
    /// otherwise the modules it names are checked.
    pub open spec fn checks_import(&self, import: ImportStatement, import_parser: ImportParser, after: SymbolTable, r: Result<(), SymbolTableError>) -> bool {
        match import_parser.core_package(import.package.name@) {
            Some(p) => self.adds_core_package(p, after, r),
            None => self.imports_modules(import, import_parser, after, r),
        }
    }

    /// What checking a list of import statements in order does: nothing for
    /// an empty list; the first statement's error stops the rest.
    pub open spec fn checks_imports(&self, imports: Seq<ImportStatement>, import_parser: ImportParser, after: SymbolTable, r: Result<(), SymbolTableError>) -> bool
        decreases imports.len(),
    {
        &&& after.wf()
        &&& after.parent_table() == self.parent_table()
        &&& r is Ok ==> forall|a: int, j: int| 0 <= a < imports.len() && 0 <= j < imports[a].symbols@.len()
            && import_parser.core_package(imports[a].package.name@) is None
            ==> import_parser.module(#[trigger] imports[a].symbols@[j].0@) is Some
        &&& r matches Err(SymbolTableError::UnknownPackage(n)) ==> import_parser.module(n@) is None
        &&& imports.len() == 0 ==> r is Ok && after == *self
        &&& imports.len() > 0 ==> exists|t1: SymbolTable, r1: Result<(), SymbolTableError>| {
            &&& #[trigger] self.checks_import(imports[0], import_parser, t1, r1)
            &&& r1 is Err ==> r == r1 && after == t1
            &&& r1 is Ok ==> t1.checks_imports(imports.skip(1), import_parser, after, r)
        }
    }

    /// What checking a program's imports, then its circuit names, then its
    /// function names does, stopping at the first failure.
    pub open spec fn checks_program(&self, program: Program, import_parser: ImportParser, after: SymbolTable, r: Result<(), SymbolTableError>) -> bool {
        &&& after.wf()
        &&& after.parent_table() == self.parent_table()
        &&& r matches Err(SymbolTableError::UnknownPackage(n)) ==> import_parser.module(n@) is None
        &&& exists|t1: SymbolTable, ri: Result<(), SymbolTableError>| {
            &&& #[trigger] self.checks_imports(program.imports@, import_parser, t1, ri)
            &&& ri is Err ==> r == ri && after == t1
            &&& ri is Ok ==> t1.checks_names(program, after, r)
        }
    }

    /// What adding a program's circuit names, then its function names, does,
    /// stopping at the first duplicate.
    pub open spec fn checks_names(&self, program: Program, after: SymbolTable, r: Result<(), SymbolTableError>) -> bool {
        exists|mid: SymbolTable, rc: Result<(), SymbolTableError>| {
            &&& #[trigger] self.adds_names(circuit_names(program.circuits@), ParameterKind::Circuit, mid, rc)
            &&& rc is Err ==> r == rc && after == mid
            &&& rc is Ok ==> mid.adds_names(function_names(program.functions@), ParameterKind::Function, after, r)
        }
    }

    fn insert_import_in(&mut self, import: &ImportStatement, import_parser: &ImportParser, Ghost(bound): Ghost<int>) -> (r: Result<(), SymbolTableError>)
        requires
            old(self).wf(),
            import_parser.wf(),
            import_parser.statement_below(*import, bound),
        ensures
            old(self).imports_modules(*import, *import_parser, *final(self), r),
        decreases bound, 0int,
    {
        let mut checked: Vec<String> = Vec::new();
        let ghost mut seen: Set<Seq<char>> = Set::empty();
        let mut j: usize = 0;
        assert(import.symbols@.skip(0) =~= import.symbols@);
        while j < import.symbols.len()
            invariant
                self.wf(),
                self.parent_table() == old(self).parent_table(),
                import_parser.wf(),
                import_parser.statement_below(*import, bound),
                j <= import.symbols.len(),
                j == 0 ==> *self == *old(self) && checked@.len() == 0,
                forall|b: int| 0 <= b < j ==> import_parser.module(#[trigger] import.symbols@[b].0@) is Some,
                forall|c: int| 0 <= c < checked@.len() ==> import_parser.module(#[trigger] checked@[c]@) is Some,
                forall|x: Seq<char>| seen.contains(x) <==> exists|c: int| 0 <= c < checked@.len() && #[trigger] checked@[c]@ == x,
                forall|after: SymbolTable, r: Result<(), SymbolTableError>|
                    #[trigger] self.modules_outcome(import.symbols@.skip(j as int), seen, *import_parser, after, r)
                    ==> old(self).modules_outcome(import.symbols@, Set::empty(), *import_parser, after, r),
            decreases import.symbols.len() - j,
        {
            let ghost rest = import.symbols@.skip(j as int);
            assert(rest[0] == import.symbols@[j as int]);
            assert(rest.skip(1) =~= import.symbols@.skip(j + 1));
            let name = &import.symbols[j].0;
            if contains_name(&checked, name) {
                assert(seen.contains(name@));
                assert forall|after: SymbolTable, r: Result<(), SymbolTableError>|
                    #[trigger] self.modules_outcome(import.symbols@.skip(j + 1), seen, *import_parser, after, r)
                    implies old(self).modules_outcome(import.symbols@, Set::empty(), *import_parser, after, r) by {
                    assert(self.modules_outcome(rest, seen, *import_parser, after, r));
                }
                j = j + 1;
                continue;
            }
            assert(!seen.contains(name@));
            let position = import_parser.position(name);
            let i = match position {
                Some(i) => i,
                None => {
                    let n = name.clone();
                    assert(self.modules_outcome(rest, seen, *import_parser, *self, Err(SymbolTableError::UnknownPackage(n))));
                    return Err(SymbolTableError::UnknownPackage(n));
                },
            };
            let program = &import_parser.imports[i].1;
            let ghost before = *self;
            let rp = self.check_duplicate_program_in(program, import_parser, Ghost(i as int));
            let ghost t1 = *self;
            let ghost gp = rp;
            proof {
                if program.imports@.len() == 0 {
                    assert(before.checks_program(*program, *import_parser, t1, gp));
                    assert(program.imports@ =~= Seq::<ImportStatement>::empty());
                    assert(before.checks_imports(program.imports@, *import_parser, before, Ok(())));
                    assert(before.checks_names(*program, t1, gp));
                }
            }
            match rp {
                Ok(()) => {},
                Err(e) => {
                    assert(before.modules_outcome(rest, seen, *import_parser, t1, gp));
                    return Err(e);
                },
            }
            let rt = self.check_unknown_types_program(program);
            let ghost gt = rt;
            let ghost t2 = *self;
            match rt {
                Ok(()) => {},
                Err(e) => {
                    assert(before.modules_outcome(rest, seen, *import_parser, t2, gt));
                    return Err(e);
                },
            }
            let ghost old_checked = checked@;
            checked.push(name.clone());
            proof {
                let seen2 = seen.insert(name@);
                assert(checked@ == old_checked.push(checked@[checked@.len() - 1]));
                assert forall|x: Seq<char>| seen2.contains(x) <==> exists|c: int| 0 <= c < checked@.len() && #[trigger] checked@[c]@ == x by {
                    if seen2.contains(x) {
                        if x == name@ {
                            assert(checked@[checked@.len() - 1]@ == x);
                        } else {
                            assert(seen.contains(x));
                            let c = choose|c: int| 0 <= c < old_checked.len() && #[trigger] old_checked[c]@ == x;
                            assert(checked@[c] == old_checked[c]);
                        }
                    }
                    if exists|c: int| 0 <= c < checked@.len() && #[trigger] checked@[c]@ == x {
                        let c = choose|c: int| 0 <= c < checked@.len() && #[trigger] checked@[c]@ == x;
                        if c < checked@.len() - 1 {
                            assert(old_checked[c] == checked@[c]);
                            assert(seen.contains(x));
                        }
                    }
                }
                assert forall|after: SymbolTable, r: Result<(), SymbolTableError>|
                    #[trigger] t2.modules_outcome(import.symbols@.skip(j + 1), seen2, *import_parser, after, r)
                    implies old(self).modules_outcome(import.symbols@, Set::empty(), *import_parser, after, r) by {
                    assert(before.modules_outcome(rest, seen, *import_parser, after, r));
                }
                seen = seen2;
            }
            j = j + 1;
        }
        assert(import.symbols@.skip(j as int).len() == 0);
        assert(self.modules_outcome(import.symbols@.skip(j as int), seen, *import_parser, *self, Ok(())));
        Ok(())
    }

    fn check_import_in(&mut self, import: &ImportStatement, import_parser: &ImportParser, Ghost(bound): Ghost<int>) -> (r: Result<(), SymbolTableError>)
        requires
            old(self).wf(),
            import_parser.wf(),
            import_parser.statement_below(*import, bound),
        ensures
            old(self).checks_import(*import, *import_parser, *final(self), r),
        decreases bound, 1int,
    {
        match import_parser.get_core_package(&import.package.name) {
            Some(package) => self.insert_core_package(package),
            None => self.insert_import_in(import, import_parser, Ghost(bound)),
        }
    }

    fn check_imports_in(&mut self, imports: &Vec<ImportStatement>, import_parser: &ImportParser, Ghost(bound): Ghost<int>) -> (r: Result<(), SymbolTableError>)
        requires
            old(self).wf(),
            import_parser.wf(),
            forall|a: int| 0 <= a < imports@.len() ==> import_parser.statement_below(#[trigger] imports@[a], bound),
        ensures
            old(self).checks_imports(imports@, *import_parser, *final(self), r),
        decreases bound, 2int,
    {
        let mut a: usize = 0;
        assert(imports@.skip(0) =~= imports@);
        while a < imports.len()
            invariant
                self.wf(),
                import_parser.wf(),
                forall|a: int| 0 <= a < imports@.len() ==> import_parser.statement_below(#[trigger] imports@[a], bound),
                a <= imports.len(),
                forall|after: SymbolTable, r: Result<(), SymbolTableError>| #[trigger] self.checks_imports(imports@.skip(a as int), *import_parser, after, r)
                    ==> old(self).checks_imports(imports@, *import_parser, after, r),
            decreases imports.len() - a,
        {
            let ghost before = *self;
            let ghost rest = imports@.skip(a as int);
            assert(rest[0] == imports@[a as int]);
            assert(rest.skip(1) =~= imports@.skip(a + 1));
            let r1 = self.check_import_in(&imports[a], import_parser, Ghost(bound));
            let ghost g = r1;
            let ghost t1 = *self;
            match r1 {
                Ok(()) => {
                    proof {
                        assert forall|after: SymbolTable, r: Result<(), SymbolTableError>| #[trigger] t1.checks_imports(imports@.skip(a + 1), *import_parser, after, r)
                            implies old(self).checks_imports(imports@, *import_parser, after, r) by {
                            assert(before.checks_import(rest[0], *import_parser, t1, g));
                            assert forall|b: int, j: int| 0 <= b < rest.len() && 0 <= j < rest[b].symbols@.len()
                                && import_parser.core_package(rest[b].package.name@) is None && r is Ok
                                implies import_parser.module(#[trigger] rest[b].symbols@[j].0@) is Some by {
                                if b > 0 {
                                    assert(rest[b] == rest.skip(1)[b - 1]);
                                }
                            }
                            assert(before.checks_imports(rest, *import_parser, after, r));
                        }
                    }
                },
                Err(e) => {
                    proof {
                        assert(before.checks_import(rest[0], *import_parser, t1, g));
                        assert(before.checks_imports(rest, *import_parser, t1, Err(e)));
                    }
                    return Err(e);
                },
            }
            a = a + 1;
        }
        assert(imports@.skip(a as int).len() == 0);
        assert(self.checks_imports(imports@.skip(a as int), *import_parser, *self, Ok(())));
        Ok(())
    }

    proof fn lemma_statements_below(import_parser: &ImportParser, program: Program, bound: int)
        requires
            import_parser.imports_below(program, bound),
        ensures
            forall|a: int| 0 <= a < program.imports@.len() ==> import_parser.statement_below(#[trigger] program.imports@[a], bound),
    {
        assert forall|a: int| 0 <= a < program.imports@.len() implies import_parser.statement_below(#[trigger] program.imports@[a], bound) by {
            let s = program.imports@[a];
            assert forall|i: int, j: int| #![trigger import_parser.imports@[i], s.symbols@[j]]
                0 <= i < import_parser.imports@.len() && 0 <= j < s.symbols@.len() && import_parser.imports@[i].0@ == s.symbols@[j].0@
                implies i < bound by {
                assert(program.imports@[a].symbols@[j].0@ == import_parser.imports@[i].0@);
                assert(imported_modules(program.imports@).contains(import_parser.imports@[i].0@));
            }
        }
    }

    fn check_duplicate_program_in(&mut self, program: &Program, import_parser: &ImportParser, Ghost(bound): Ghost<int>) -> (r: Result<(), SymbolTableError>)
        requires
            old(self).wf(),
            import_parser.wf(),
            import_parser.imports_below(*program, bound),
        ensures
            old(self).checks_program(*program, *import_parser, *final(self), r),
            r is Ok ==> forall|i: int| 0 <= i < program.circuits@.len() ==>
                final(self).name_model(#[trigger] circuit_names(program.circuits@)[i]) == Some((circuit_names(program.circuits@)[i], ParameterKind::Circuit)),
            r is Ok ==> forall|i: int| 0 <= i < program.functions@.len() ==>
                final(self).name_model(#[trigger] function_names(program.functions@)[i]) == Some((function_names(program.functions@)[i], ParameterKind::Function)),
        decreases bound, 3int,
    {
        proof {
            SymbolTable::lemma_statements_below(import_parser, *program, bound);
        }
        let ghost t0 = *self;
        let ri = self.check_imports_in(&program.imports, import_parser, Ghost(bound));
        let ghost t1 = *self;
        let ghost gi = ri;
        match ri {
            Ok(()) => {},
            Err(e) => {
                assert(t0.checks_imports(program.imports@, *import_parser, t1, Err(e)));
                return Err(e);
            },
        }
        let rc = self.check_duplicate_circuits(&program.circuits);
        let ghost mid = *self;
        match rc {
            Ok(()) => {},
            Err(e) => {
                assert(t1.adds_names(circuit_names(program.circuits@), ParameterKind::Circuit, mid, Err(e)));
                assert(t0.checks_imports(program.imports@, *import_parser, t1, gi) && gi is Ok);
                return Err(e);
            },
        }
        let rf = self.check_duplicate_functions(&program.functions);
        assert(t1.adds_names(circuit_names(program.circuits@), ParameterKind::Circuit, mid, Ok(())));
        assert(t0.checks_imports(program.imports@, *import_parser, t1, gi) && gi is Ok);
        match rf {
            Ok(()) => {},
            Err(e) => {
                return Err(e);
            },
        }
        proof {
            let cn = circuit_names(program.circuits@);
            let fnn = function_names(program.functions@);
            assert forall|i: int| 0 <= i < program.circuits@.len() implies
                self.name_model(#[trigger] cn[i]) == Some((cn[i], ParameterKind::Circuit)) by {
                assert(cn.contains(cn[i]));
                assert(mid.name_model(cn[i]) == Some((cn[i], ParameterKind::Circuit)));
                if fnn.contains(cn[i]) {
                    let j = choose|j: int| 0 <= j < fnn.len() && fnn[j] == cn[i];
                    assert(mid.name_at(fnn[j]) is None);
                }
            }
            assert forall|i: int| 0 <= i < program.functions@.len() implies
                self.name_model(#[trigger] fnn[i]) == Some((fnn[i], ParameterKind::Function)) by {
                assert(fnn.contains(fnn[i]));
            }
        }
        Ok(())
    }
}

impl SymbolTable {
    /// Checks each module that `import` names, once per module: its own
    /// imports and names, then its types. Imported symbols are not bound here.
    pub fn insert_import(&mut self, import: &ImportStatement, import_parser: &ImportParser) -> (r: Result<(), SymbolTableError>)
        requires
            old(self).wf(),
            import_parser.wf(),
        ensures
            old(self).imports_modules(*import, *import_parser, *final(self), r),
    {
        self.insert_import_in(import, import_parser, Ghost(import_parser.len()))
    }

    /// Binds a built-in package if `import` names one, else checks the modules it names.
    pub fn check_import(&mut self, import: &ImportStatement, import_parser: &ImportParser) -> (r: Result<(), SymbolTableError>)
        requires
            old(self).wf(),
            import_parser.wf(),
        ensures
            old(self).checks_import(*import, *import_parser, *final(self), r),
    {
        self.check_import_in(import, import_parser, Ghost(import_parser.len()))
    }

    /// Checks each import statement in order, stopping at the first failure.
    pub fn check_imports(&mut self, imports: &Vec<ImportStatement>, import_parser: &ImportParser) -> (r: Result<(), SymbolTableError>)
        requires
            old(self).wf(),
            import_parser.wf(),
        ensures
            old(self).checks_imports(imports@, *import_parser, *final(self), r),
    {
        self.check_imports_in(imports, import_parser, Ghost(import_parser.len()))
    }

    /// Checks the imports of `program`, then adds its circuit names, then its
    /// function names, stopping at the first failure.
    pub fn check_duplicate_program(&mut self, program: &Program, import_parser: &ImportParser) -> (r: Result<(), SymbolTableError>)
        requires
            old(self).wf(),
            import_parser.wf(),
        ensures
            old(self).checks_program(*program, *import_parser, *final(self), r),
            r is Ok ==> forall|i: int| 0 <= i < program.circuits@.len() ==>
                final(self).name_model(#[trigger] circuit_names(program.circuits@)[i]) == Some((circuit_names(program.circuits@)[i], ParameterKind::Circuit)),
            r is Ok ==> forall|i: int| 0 <= i < program.functions@.len() ==>
                final(self).name_model(#[trigger] function_names(program.functions@)[i]) == Some((function_names(program.functions@)[i], ParameterKind::Function)),
    {
        self.check_duplicate_program_in(program, import_parser, Ghost(import_parser.len()))
    }
}

/// A lookup through the levels: the entry of this level if there is one,
/// else what the enclosing level finds; a level with no enclosing level and
/// no entry finds nothing.
pub proof fn lemma_lookup_levels(t: SymbolTable, k: Seq<char>)
    ensures
        t.circuit_of(k) == match t.circuit_at(k) {
            Some(c) => Some(c),
            None => match t.parent_table() {
                Some(p) => p.circuit_of(k),
                None => None,
            },
        },
        t.function_of(k) == match t.function_at(k) {
            Some(f) => Some(f),
            None => match t.parent_table() {
                Some(p) => p.function_of(k),
                None => None,
            },
        },
{
}

/// Two circuits of one name make the circuit names of a program impossible
/// to add, so `check_duplicate_circuits` fails on them with a duplicate-circuit
/// error that carries the entry met first.
pub proof fn lemma_duplicate_circuits_rejected(table: SymbolTable, circuits: Seq<Circuit>, i: int, j: int)
    requires
        0 <= i < j < circuits.len(),
        circuits[i].circuit_name.name@ == circuits[j].circuit_name.name@,
    ensures
        !table.fresh(circuit_names(circuits)),
        forall|after: SymbolTable, r: Result<(), SymbolTableError>|
            #[trigger] table.adds_names(circuit_names(circuits), ParameterKind::Circuit, after, r) ==> (r matches Err(e) && (
                exists|k: int, p: ParameterType| table.first_clash(circuit_names(circuits), ParameterKind::Circuit, k, p)
                    && (e matches SymbolTableError::DuplicateCircuit(q) && q.model() == p.model()))),
{
    assert(circuit_names(circuits)[i] == circuit_names(circuits)[j]);
}

/// A circuit or function type stored at an enclosing level is seen from a
/// level below it unless that level stores one of the same name; one stored
/// only in a sibling level is not seen.
pub proof fn lemma_scope_visibility(parent: SymbolTable, child: SymbolTable, sibling: SymbolTable, k: Seq<char>)
    requires
        child.parent_table() == Some(parent),
        sibling.parent_table() == Some(parent),
    ensures
        child.circuit_at(k) is None ==> child.circuit_of(k) == parent.circuit_of(k),
        child.function_at(k) is None ==> child.function_of(k) == parent.function_of(k),
        sibling.circuit_at(k) is Some && parent.circuit_of(k) is None && child.circuit_at(k) is None
            ==> child.circuit_of(k) is None,
        sibling.function_at(k) is Some && parent.function_of(k) is None && child.function_at(k) is None
            ==> child.function_of(k) is None,
{
    reveal_with_fuel(SymbolTable::circuit_of, 2);
    reveal_with_fuel(SymbolTable::function_of, 2);
}

/// Importing one symbol that is neither a circuit nor a function of the
/// module fails with an unknown-symbol error; importing `*` from a module with
/// two circuits of one name fails with a duplicate-circuit error.
pub proof fn lemma_import_symbol_errors(table: SymbolTable, symbol: ImportSymbol, program: Program)
    requires
        table.wf(),
    ensures
        !symbol.star() && !circuit_names(program.circuits@).contains(symbol.symbol.name@)
            && !function_names(program.functions@).contains(symbol.symbol.name@) ==>
            forall|after: SymbolTable, r: Result<(), SymbolTableError>| #[trigger] table.imports_symbol(symbol, program, after, r)
                ==> (r matches Err(SymbolTableError::UnknownSymbol(s, _)) && s@ == symbol.symbol.name@),
        symbol.star() && (exists|i: int, j: int| 0 <= i < j < program.circuits@.len()
            && #[trigger] program.circuits@[i].circuit_name.name@ == #[trigger] program.circuits@[j].circuit_name.name@) ==>
            forall|after: SymbolTable, r: Result<(), SymbolTableError>| #[trigger] table.imports_symbol(symbol, program, after, r)
                ==> r matches Err(SymbolTableError::DuplicateCircuit(_)),
{
    if symbol.star() && (exists|i: int, j: int| 0 <= i < j < program.circuits@.len()
        && #[trigger] program.circuits@[i].circuit_name.name@ == #[trigger] program.circuits@[j].circuit_name.name@) {
        let (i, j) = choose|i: int, j: int| 0 <= i < j < program.circuits@.len()
            && #[trigger] program.circuits@[i].circuit_name.name@ == #[trigger] program.circuits@[j].circuit_name.name@;
        lemma_duplicate_circuits_rejected(table, program.circuits@, i, j);
    }
}

} // verus!
