//! The intermediate representation that the parser fills and the generators
//! read, and its mathematical view (`Seq<char>` in place of `String`).

use vstd::prelude::*;

use crate::text::views;

verus! {

/// One table of a storage spec.
#[derive(Debug, Clone)]
pub struct TableDef {
    /// Spec name, e.g. `Ride`.
    pub name: String,
    /// SQL table name, e.g. `ride`.
    pub sql_table: String,
    pub fields: Vec<FieldDef>,
    /// Custom enums under `types:`.
    pub types: Vec<TypeDef>,
    /// Names of the primary-key fields, in field order.
    pub primary_key: Vec<String>,
    /// Names of the secondary-key fields, in field order.
    pub secondary_keys: Vec<String>,
}

/// One field of a table.
#[derive(Debug, Clone)]
pub struct FieldDef {
    /// Spec field name, e.g. `driverId`.
    pub name: String,
    /// Spec type with `Maybe ` and any `|relation` suffix removed, e.g. `Id Person`.
    pub spec_type: String,
    pub optional: bool,
    /// From the spec's `beamType:` block.
    pub db_type_override: Option<String>,
    /// SQL default, from the spec's `default:` block or the injected timestamps.
    pub default: Option<String>,
    pub constraints: Vec<Constraint>,
}

#[derive(Debug, Clone, Copy, PartialEq, Eq, Structural)]
pub enum Constraint {
    PrimaryKey,
    SecondaryKey,
}

/// A custom type declared in the spec's `types:` block.
#[derive(Debug, Clone)]
pub enum TypeDef {
    Enum { name: String, variants: Vec<String> },
}

pub struct TableDefV {
    pub name: Seq<char>,
    pub sql_table: Seq<char>,
    pub fields: Seq<FieldDefV>,
    pub types: Seq<TypeDefV>,
    pub primary_key: Seq<Seq<char>>,
    pub secondary_keys: Seq<Seq<char>>,
}

pub struct FieldDefV {
    pub name: Seq<char>,
    pub spec_type: Seq<char>,
    pub optional: bool,
    pub db_type_override: Option<Seq<char>>,
    pub default: Option<Seq<char>>,
    pub constraints: Seq<Constraint>,
}

pub enum TypeDefV {
    Enum { name: Seq<char>, variants: Seq<Seq<char>> },
}

/// The view of an optional string.
pub open spec fn opt_view(o: Option<String>) -> Option<Seq<char>> {
    match o {
        Some(s) => Some(s@),
        None => None,
    }
}

impl View for FieldDef {
    type V = FieldDefV;

    open spec fn view(&self) -> FieldDefV {
        FieldDefV {
            name: self.name@,
            spec_type: self.spec_type@,
            optional: self.optional,
            db_type_override: opt_view(self.db_type_override),
            default: opt_view(self.default),
            constraints: self.constraints@,
        }
    }
}

impl View for TypeDef {
    type V = TypeDefV;

    open spec fn view(&self) -> TypeDefV {
        match self {
            TypeDef::Enum { name, variants } => TypeDefV::Enum {
                name: name@,
                variants: views(variants@),
            },
        }
    }
}

impl TypeDefV {
    /// The name the type is declared under.
    pub open spec fn declared_name(self) -> Seq<char> {
        match self {
            TypeDefV::Enum { name, .. } => name,
        }
    }
}

impl View for TableDef {
    type V = TableDefV;

    open spec fn view(&self) -> TableDefV {
        TableDefV {
            name: self.name@,
            sql_table: self.sql_table@,
            fields: self.fields@.map_values(|f: FieldDef| f@),
            types: self.types@.map_values(|t: TypeDef| t@),
            primary_key: views(self.primary_key@),
            secondary_keys: views(self.secondary_keys@),
        }
    }
}

/// The views of a sequence of tables.
pub open spec fn table_views(v: Seq<TableDef>) -> Seq<TableDefV> {
    v.map_values(|t: TableDef| t@)
}

} // verus!
