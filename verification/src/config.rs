//! The type registry a consuming project supplies. The generator ships no
//! custom-type knowledge: without entries here only primitives, `Id X` and
//! spec-defined enums resolve.

use vstd::prelude::*;

use crate::ir::opt_view;

verus! {

/// How one spec type maps onto Rust, Diesel and Postgres. Every facet is
/// optional, so an entry can override a single facet of a primitive.
#[derive(Debug, Clone)]
pub struct TypeMapping {
    /// Model field type, e.g. `Decimal`.
    pub rust: Option<String>,
    /// Diesel SQL type, e.g. `Numeric`.
    pub diesel: Option<String>,
    /// Postgres column type, e.g. `numeric`.
    pub pg: Option<String>,
    /// `use` path the model needs, e.g. `rust_decimal::Decimal`.
    pub import: Option<String>,
    /// Dependency line for the generated `Cargo.toml`, e.g. `rust_decimal = "1"`.
    pub krate: Option<String>,
}

/// The `[cargo]` section: base dependencies of the generated crate.
#[derive(Debug)]
pub struct CargoConfig {
    /// Dependency name -> raw TOML fragment (the right-hand side of `name = ...`).
    pub dependencies: Vec<(String, String)>,
}

/// The project configuration.
#[derive(Debug)]
pub struct Config {
    /// Spec type name -> mapping.
    pub types: Vec<(String, TypeMapping)>,
    pub cargo: CargoConfig,
}

pub struct TypeMappingV {
    pub rust: Option<Seq<char>>,
    pub diesel: Option<Seq<char>>,
    pub pg: Option<Seq<char>>,
    pub import: Option<Seq<char>>,
    pub krate: Option<Seq<char>>,
}

pub struct ConfigV {
    pub types: Seq<(Seq<char>, TypeMappingV)>,
    pub dependencies: Seq<(Seq<char>, Seq<char>)>,
}

impl View for TypeMapping {
    type V = TypeMappingV;

    open spec fn view(&self) -> TypeMappingV {
        TypeMappingV {
            rust: opt_view(self.rust),
            diesel: opt_view(self.diesel),
            pg: opt_view(self.pg),
            import: opt_view(self.import),
            krate: opt_view(self.krate),
        }
    }
}

impl View for Config {
    type V = ConfigV;

    open spec fn view(&self) -> ConfigV {
        ConfigV {
            types: self.types@.map_values(|e: (String, TypeMapping)| (e.0@, e.1@)),
            dependencies: self.cargo.dependencies@.map_values(|e: (String, String)| (e.0@, e.1@)),
        }
    }
}

/// The mapping registered for `name`: the first entry under that name.
pub open spec fn lookup_type(types: Seq<(Seq<char>, TypeMappingV)>, name: Seq<char>) -> Option<
    TypeMappingV,
>
    decreases types.len(),
{
    if types.len() == 0 {
        None
    } else if types[0].0 == name {
        Some(types[0].1)
    } else {
        lookup_type(types.drop_first(), name)
    }
}

/// The index of the first entry registered under `name`.
pub open spec fn type_index(types: Seq<(Seq<char>, TypeMappingV)>, name: Seq<char>) -> Option<int>
    decreases types.len(),
{
    if types.len() == 0 {
        None
    } else if types[0].0 == name {
        Some(0)
    } else {
        match type_index(types.drop_first(), name) {
            Some(k) => Some(k + 1),
            None => None,
        }
    }
}

/// The index of the first dependency named `name`.
pub open spec fn dependency_index(deps: Seq<(Seq<char>, Seq<char>)>, name: Seq<char>) -> Option<
    int,
>
    decreases deps.len(),
{
    if deps.len() == 0 {
        None
    } else if deps[0].0 == name {
        Some(0)
    } else {
        match dependency_index(deps.drop_first(), name) {
            Some(k) => Some(k + 1),
            None => None,
        }
    }
}

/// `type_index` finds the entry that `lookup_type` returns.
pub proof fn lemma_type_index(types: Seq<(Seq<char>, TypeMappingV)>, name: Seq<char>)
    ensures
        match type_index(types, name) {
            Some(k) => 0 <= k < types.len() && types[k].0 == name && lookup_type(types, name)
                == Some(types[k].1) && forall|j: int| 0 <= j < k ==> types[j].0 != name,
            None => lookup_type(types, name) is None && forall|j: int|
                0 <= j < types.len() ==> types[j].0 != name,
        },
    decreases types.len(),
{
    if types.len() > 0 && types[0].0 != name {
        lemma_type_index(types.drop_first(), name);
        assert forall|j: int| 1 <= j < types.len() implies types[j] == types.drop_first()[j - 1] by {}
    }
}

/// `dependency_index` finds the first entry named `name`.
pub proof fn lemma_dependency_index(deps: Seq<(Seq<char>, Seq<char>)>, name: Seq<char>)
    ensures
        match dependency_index(deps, name) {
            Some(k) => 0 <= k < deps.len() && deps[k].0 == name && forall|j: int|
                0 <= j < k ==> deps[j].0 != name,
            None => forall|j: int| 0 <= j < deps.len() ==> deps[j].0 != name,
        },
    decreases deps.len(),
{
    if deps.len() > 0 && deps[0].0 != name {
        lemma_dependency_index(deps.drop_first(), name);
        assert forall|j: int| 1 <= j < deps.len() implies deps[j] == deps.drop_first()[j - 1] by {}
    }
}

impl TypeMapping {
    /// A mapping with no facet set.
    pub fn new() -> (r: TypeMapping)
        ensures
            r@ == (TypeMappingV { rust: None, diesel: None, pg: None, import: None, krate: None }),
    {
        TypeMapping { rust: None, diesel: None, pg: None, import: None, krate: None }
    }
}

impl Default for TypeMapping {
    fn default() -> (r: TypeMapping)
        ensures
            r@ == (TypeMappingV { rust: None, diesel: None, pg: None, import: None, krate: None }),
    {
        TypeMapping::new()
    }
}

impl Config {
    /// The empty registry, used when no config file is given.
    pub fn new() -> (r: Config)
        ensures
            r@.types.len() == 0,
            r@.dependencies.len() == 0,
            r@.well_formed(),
    {
        Config { types: Vec::new(), cargo: CargoConfig { dependencies: Vec::new() } }
    }

    /// Register `mapping` under `name`, replacing an entry already under that
    /// name (`HashMap::insert`).
    pub fn set_type(&mut self, name: String, mapping: TypeMapping)
        ensures
            final(self)@.dependencies == old(self)@.dependencies,
            match type_index(old(self)@.types, name@) {
                Some(k) => final(self)@.types == old(self)@.types.update(k, (name@, mapping@)),
                None => final(self)@.types == old(self)@.types.push((name@, mapping@)),
            },
            old(self)@.well_formed() ==> final(self)@.well_formed(),
    {
        let ghost before = self@.types;
        proof {
            lemma_type_index(before, name@);
        }
        match self.type_position(name.as_str()) {
            Some(k) => {
                self.types.set(k, (name, mapping));
                assert(self@.types =~= before.update(k as int, (name@, mapping@)));
            },
            None => {
                self.types.push((name, mapping));
                assert(self@.types =~= before.push((name@, mapping@)));
            },
        }
        proof {
            if names_unique(before) {
                law_set_type_keeps_names_unique(before, self@.types, name@, mapping@);
            }
        }
    }

    /// Register a base dependency of the generated crate, replacing one already
    /// under that name.
    pub fn set_dependency(&mut self, name: String, fragment: String)
        ensures
            final(self)@.types == old(self)@.types,
            match dependency_index(old(self)@.dependencies, name@) {
                Some(k) => final(self)@.dependencies == old(self)@.dependencies.update(
                    k,
                    (name@, fragment@),
                ),
                None => final(self)@.dependencies == old(self)@.dependencies.push(
                    (name@, fragment@),
                ),
            },
            old(self)@.well_formed() ==> final(self)@.well_formed(),
    {
        let ghost before = self@.dependencies;
        let ghost types_before = self@.types;
        let mut i: usize = 0;
        let n = self.cargo.dependencies.len();
        proof {
            lemma_dependency_index(before, name@);
        }
        while i < n
            invariant
                i <= n,
                n == self.cargo.dependencies.len(),
                before == self@.dependencies,
                types_before == self@.types,
                before == old(self)@.dependencies,
                types_before == old(self)@.types,
                forall|j: int| 0 <= j < i ==> before[j].0 != name@,
                match dependency_index(before, name@) {
                    Some(k) => i <= k,
                    None => true,
                },
            decreases n - i,
        {
            assert(before[i as int].0 == self.cargo.dependencies@[i as int].0@);
            proof {
                lemma_dependency_index(before, name@);
            }
            if crate::text::str_eq(self.cargo.dependencies[i].0.as_str(), name.as_str()) {
                self.cargo.dependencies.set(i, (name, fragment));
                assert(self@.dependencies =~= before.update(i as int, (name@, fragment@)));
                assert(self@.types =~= types_before);
                proof {
                    if names_unique(before) {
                        law_set_dependency_keeps_names_unique(
                            before,
                            self@.dependencies,
                            name@,
                            fragment@,
                        );
                    }
                }
                return;
            }
            i += 1;
        }
        self.cargo.dependencies.push((name, fragment));
        assert(self@.dependencies =~= before.push((name@, fragment@)));
        assert(self@.types =~= types_before);
        proof {
            if names_unique(before) {
                law_set_dependency_keeps_names_unique(before, self@.dependencies, name@, fragment@);
            }
        }
    }

    /// The index of the entry registered under `name`.
    fn type_position(&self, name: &str) -> (r: Option<usize>)
        ensures
            match r {
                Some(k) => type_index(self@.types, name@) == Some(k as int),
                None => type_index(self@.types, name@) is None,
            },
    {
        let n = self.types.len();
        let mut i: usize = 0;
        proof {
            lemma_type_index(self@.types, name@);
        }
        while i < n
            invariant
                i <= n,
                n == self.types.len(),
                forall|j: int| 0 <= j < i ==> self@.types[j].0 != name@,
                match type_index(self@.types, name@) {
                    Some(k) => i <= k,
                    None => true,
                },
            decreases n - i,
        {
            assert(self@.types[i as int].0 == self.types@[i as int].0@);
            proof {
                lemma_type_index(self@.types, name@);
            }
            if crate::text::str_eq(self.types[i].0.as_str(), name) {
                return Some(i);
            }
            i += 1;
        }
        None
    }

    /// The mapping registered for `name` (`HashMap::get`).
    pub fn type_mapping(&self, name: &str) -> (r: Option<&TypeMapping>)
        ensures
            match r {
                Some(m) => lookup_type(self@.types, name@) == Some(m@),
                None => lookup_type(self@.types, name@) is None,
            },
    {
        proof {
            lemma_type_index(self@.types, name@);
        }
        match self.type_position(name) {
            Some(k) => Some(&self.types[k].1),
            None => None,
        }
    }
}

impl Default for Config {
    fn default() -> (r: Config)
        ensures
            r@.types.len() == 0,
            r@.dependencies.len() == 0,
    {
        Config::new()
    }
}

/// Reading a type back after registering it gives the registered mapping.
pub proof fn law_type_read_after_set(
    before: Seq<(Seq<char>, TypeMappingV)>,
    after: Seq<(Seq<char>, TypeMappingV)>,
    name: Seq<char>,
    mapping: TypeMappingV,
)
    requires
        match type_index(before, name) {
            Some(k) => after == before.update(k, (name, mapping)),
            None => after == before.push((name, mapping)),
        },
    ensures
        lookup_type(after, name) == Some(mapping),
{
    lemma_type_index(before, name);
    lemma_type_index(after, name);
    match type_index(before, name) {
        Some(k) => {
            assert(after[k].0 == name);
        },
        None => {
            assert(after[before.len() as int].0 == name);
        },
    }
}

/// Registering a type under one name leaves every other name's mapping as it was.
pub proof fn law_type_set_keeps_other_names(
    before: Seq<(Seq<char>, TypeMappingV)>,
    after: Seq<(Seq<char>, TypeMappingV)>,
    name: Seq<char>,
    mapping: TypeMappingV,
    other: Seq<char>,
)
    requires
        other != name,
        match type_index(before, name) {
            Some(k) => after == before.update(k, (name, mapping)),
            None => after == before.push((name, mapping)),
        },
    ensures
        lookup_type(after, other) == lookup_type(before, other),
{
    lemma_type_index(before, name);
    lemma_type_index(before, other);
    lemma_type_index(after, other);
    match type_index(before, other) {
        Some(k) => {
            assert(after[k] == before[k]);
            assert forall|j: int| 0 <= j < k implies after[j].0 != other by {
                assert(after[j].0 == before[j].0 || after[j].0 == name);
            }
            match type_index(after, other) {
                Some(k2) => {
                    if k2 < k {
                        assert(after[k2].0 != other);
                    }
                },
                None => {},
            }
        },
        None => {
            assert forall|j: int| 0 <= j < after.len() implies after[j].0 != other by {
                if j < before.len() {
                    assert(after[j].0 == before[j].0 || after[j].0 == name);
                }
            }
        },
    }
}

/// No two entries share a name.
pub open spec fn names_unique<V>(entries: Seq<(Seq<char>, V)>) -> bool {
    forall|i: int, j: int| 0 <= i < j < entries.len() ==> entries[i].0 != entries[j].0
}

impl ConfigV {
    /// Every type and every base dependency is registered once. `Config::new`
    /// gives such a config and `set_type` / `set_dependency` keep it so; on
    /// such a config the first entry under a name is the only one.
    pub open spec fn well_formed(self) -> bool {
        names_unique(self.types) && names_unique(self.dependencies)
    }
}

/// Registering a type keeps every name registered once.
pub proof fn law_set_type_keeps_names_unique(
    before: Seq<(Seq<char>, TypeMappingV)>,
    after: Seq<(Seq<char>, TypeMappingV)>,
    name: Seq<char>,
    mapping: TypeMappingV,
)
    requires
        names_unique(before),
        match type_index(before, name) {
            Some(k) => after == before.update(k, (name, mapping)),
            None => after == before.push((name, mapping)),
        },
    ensures
        names_unique(after),
{
    lemma_type_index(before, name);
    assert forall|i: int, j: int| 0 <= i < j < after.len() implies after[i].0 != after[j].0 by {
        match type_index(before, name) {
            Some(k) => {
                assert(after[i].0 == before[i].0 && after[j].0 == before[j].0);
            },
            None => {
                if j < before.len() {
                    assert(after[i] == before[i] && after[j] == before[j]);
                } else {
                    assert(after[i] == before[i]);
                }
            },
        }
    }
}

/// Registering a base dependency keeps every name registered once.
pub proof fn law_set_dependency_keeps_names_unique(
    before: Seq<(Seq<char>, Seq<char>)>,
    after: Seq<(Seq<char>, Seq<char>)>,
    name: Seq<char>,
    fragment: Seq<char>,
)
    requires
        names_unique(before),
        match dependency_index(before, name) {
            Some(k) => after == before.update(k, (name, fragment)),
            None => after == before.push((name, fragment)),
        },
    ensures
        names_unique(after),
{
    lemma_dependency_index(before, name);
    assert forall|i: int, j: int| 0 <= i < j < after.len() implies after[i].0 != after[j].0 by {
        match dependency_index(before, name) {
            Some(k) => {
                assert(after[i].0 == before[i].0 && after[j].0 == before[j].0);
            },
            None => {
                if j < before.len() {
                    assert(after[i] == before[i] && after[j] == before[j]);
                } else {
                    assert(after[i] == before[i]);
                }
            },
        }
    }
}

} // verus!
