//! Resolve a spec field type into the facets the generators need (Rust,
//! Diesel, Postgres, and the `use` import). The generator owns only language
//! primitives and structural rules; custom and imported types come from the
//! project's config.

use vstd::prelude::*;

use crate::config::{lookup_type, Config, ConfigV, TypeMappingV};
use crate::ir::{opt_view, FieldDef, FieldDefV, TypeDef, TypeDefV};
use crate::text::{snake_case, starts_with, str_eq, substring, to_snake_case};

verus! {

/// The resolved facets of one field.
#[derive(Debug, Clone)]
pub struct ResolvedType {
    pub column_name: String,
    pub rust_type: String,
    pub diesel_sql: String,
    pub pg_type: String,
    /// `use` path the model needs; `None` for std primitives.
    pub import: Option<String>,
}

pub struct ResolvedTypeV {
    pub column_name: Seq<char>,
    pub rust_type: Seq<char>,
    pub diesel_sql: Seq<char>,
    pub pg_type: Seq<char>,
    pub import: Option<Seq<char>>,
}

impl View for ResolvedType {
    type V = ResolvedTypeV;

    open spec fn view(&self) -> ResolvedTypeV {
        ResolvedTypeV {
            column_name: self.column_name@,
            rust_type: self.rust_type@,
            diesel_sql: self.diesel_sql@,
            pg_type: self.pg_type@,
            import: opt_view(self.import),
        }
    }
}

/// A facet of a type mapping.
#[derive(Debug, Clone, Copy, PartialEq, Eq, Structural)]
pub enum Facet {
    Rust,
    Diesel,
    Pg,
}

/// Why a field's type did not resolve.
#[derive(Debug)]
pub enum TypeError {
    /// A config entry for a type that is not a primitive leaves a facet unset.
    MissingFacet { spec_type: String, facet: Facet },
    /// The type is not a spec enum, an `Id`, a config entry or a primitive.
    UnknownType { spec_type: String, field: String },
}

pub enum TypeErrorV {
    MissingFacet { spec_type: Seq<char>, facet: Facet },
    UnknownType { spec_type: Seq<char>, field: Seq<char> },
}

impl View for TypeError {
    type V = TypeErrorV;

    open spec fn view(&self) -> TypeErrorV {
        match self {
            TypeError::MissingFacet { spec_type, facet } => TypeErrorV::MissingFacet {
                spec_type: spec_type@,
                facet: *facet,
            },
            TypeError::UnknownType { spec_type, field } => TypeErrorV::UnknownType {
                spec_type: spec_type@,
                field: field@,
            },
        }
    }
}

impl Facet {
    /// The facet's key in a config entry.
    pub open spec fn key(self) -> Seq<char> {
        match self {
            Facet::Rust => "rust"@,
            Facet::Diesel => "diesel"@,
            Facet::Pg => "pg"@,
        }
    }
}

impl TypeErrorV {
    /// The message the command line reports for this error.
    pub open spec fn text(self) -> Seq<char> {
        match self {
            TypeErrorV::MissingFacet { spec_type, facet } => "type `"@ + spec_type
                + "` in config has no `"@ + facet.key() + "` (and is not a primitive)"@,
            TypeErrorV::UnknownType { spec_type, field } => "unknown type `"@ + spec_type
                + "` (field `"@ + field
                + "`): not a primitive or a spec `types:` entry \u{2014} add it to [types] in your project config"@,
        }
    }
}

impl TypeError {
    /// The message the command line reports for this error.
    pub fn message(&self) -> (r: String)
        ensures
            r@ == self@.text(),
    {
        match self {
            TypeError::MissingFacet { spec_type, facet } => {
                let mut m = String::from_str("type `");
                m.append(spec_type.as_str());
                m.append("` in config has no `");
                match facet {
                    Facet::Rust => m.append("rust"),
                    Facet::Diesel => m.append("diesel"),
                    Facet::Pg => m.append("pg"),
                }
                m.append("` (and is not a primitive)");
                m
            },
            TypeError::UnknownType { spec_type, field } => {
                let mut m = String::from_str("unknown type `");
                m.append(spec_type.as_str());
                m.append("` (field `");
                m.append(field.as_str());
                m.append(
                    "`): not a primitive or a spec `types:` entry \u{2014} add it to [types] in your project config",
                );
                m
            },
        }
    }
}

/// Language primitives as (Rust, Diesel, Postgres): no import, universal.
pub open spec fn spec_primitive(spec: Seq<char>) -> Option<(Seq<char>, Seq<char>, Seq<char>)> {
    if spec == "Text"@ {
        Some(("String"@, "Varchar"@, "character varying(36)"@))
    } else if spec == "Int"@ {
        Some(("i64"@, "Int8"@, "bigint"@))
    } else if spec == "Bool"@ {
        Some(("bool"@, "Bool"@, "boolean"@))
    } else if spec == "Double"@ {
        Some(("f64"@, "Float8"@, "double precision"@))
    } else {
        None
    }
}

/// An optional field wraps its Rust type in `Option<..>` and its Diesel type
/// in `Nullable<..>`.
pub open spec fn spec_wrap(optional: bool, r: ResolvedTypeV) -> ResolvedTypeV {
    if optional {
        ResolvedTypeV {
            rust_type: "Option<"@ + r.rust_type + ">"@,
            diesel_sql: "Nullable<"@ + r.diesel_sql + ">"@,
            ..r
        }
    } else {
        r
    }
}

/// Some type of the spec's `types:` block is named `name`.
pub open spec fn declares_enum(types: Seq<TypeDefV>, name: Seq<char>) -> bool {
    exists|i: int| 0 <= i < types.len() && types[i].declared_name() == name
}

/// The element type `T` of a list type `[T]`.
pub open spec fn list_elem(spec: Seq<char>) -> Option<Seq<char>> {
    if spec.len() >= 2 && spec[0] == '[' && spec[spec.len() - 1] == ']' {
        Some(spec.subrange(1, spec.len() - 1))
    } else {
        None
    }
}

/// `spec` is read as a list type: written `[T]`, and neither a spec enum nor
/// an `Id X`.
pub open spec fn is_list_type(types: Seq<TypeDefV>, spec: Seq<char>) -> bool {
    !declares_enum(types, spec) && !starts_with(spec, "Id "@) && list_elem(spec) is Some
}

/// The type the resolution rules apply to: the element type of a list type,
/// else the type itself.
pub open spec fn base_type(types: Seq<TypeDefV>, spec: Seq<char>) -> Seq<char> {
    if is_list_type(types, spec) {
        list_elem(spec)->0
    } else {
        spec
    }
}

/// The facets of a list of `r`: `Vec<..>`, `Array<..>` and a `[]` column.
pub open spec fn spec_list_of(r: ResolvedTypeV) -> ResolvedTypeV {
    ResolvedTypeV {
        rust_type: "Vec<"@ + r.rust_type + ">"@,
        diesel_sql: "Array<"@ + r.diesel_sql + ">"@,
        pg_type: r.pg_type + "[]"@,
        ..r
    }
}

/// A facet of a config entry, inherited from the primitive of the same name
/// when the entry leaves it unset.
pub open spec fn facet_of(
    set: Option<Seq<char>>,
    inherited: Option<Seq<char>>,
) -> Option<Seq<char>> {
    match set {
        Some(v) => Some(v),
        None => inherited,
    }
}

/// The facets of type `spec` from a config entry `m` for it.
pub open spec fn type_from_config(
    spec: Seq<char>,
    column: Seq<char>,
    m: TypeMappingV,
) -> Result<ResolvedTypeV, TypeErrorV> {
    let prim = spec_primitive(spec);
    let rust = facet_of(m.rust, match prim { Some(p) => Some(p.0), None => None });
    let diesel = facet_of(m.diesel, match prim { Some(p) => Some(p.1), None => None });
    let pg = facet_of(m.pg, match prim { Some(p) => Some(p.2), None => None });
    if rust is None {
        Err(TypeErrorV::MissingFacet { spec_type: spec, facet: Facet::Rust })
    } else if diesel is None {
        Err(TypeErrorV::MissingFacet { spec_type: spec, facet: Facet::Diesel })
    } else if pg is None {
        Err(TypeErrorV::MissingFacet { spec_type: spec, facet: Facet::Pg })
    } else {
        Ok(
            ResolvedTypeV {
                column_name: column,
                rust_type: rust->0,
                diesel_sql: diesel->0,
                pg_type: pg->0,
                import: m.import,
            },
        )
    }
}

/// The facets of the (non-list) type `spec` of field `field`, by the first
/// rule that applies: a spec enum (text-backed, imported from the generated
/// module `module`), `Id X` (a text id), a config entry, a primitive;
/// otherwise the type is unknown. `column` is the column name.
pub open spec fn spec_resolve_type(
    spec: Seq<char>,
    field: Seq<char>,
    column: Seq<char>,
    module: Seq<char>,
    types: Seq<TypeDefV>,
    config: ConfigV,
) -> Result<ResolvedTypeV, TypeErrorV> {
    if declares_enum(types, spec) {
        Ok(
            ResolvedTypeV {
                column_name: column,
                rust_type: spec,
                diesel_sql: "Varchar"@,
                pg_type: "character varying(36)"@,
                import: Some("crate::types::"@ + module + "::"@ + spec),
            },
        )
    } else if starts_with(spec, "Id "@) {
        Ok(
            ResolvedTypeV {
                column_name: column,
                rust_type: "String"@,
                diesel_sql: "Varchar"@,
                pg_type: "character varying(36)"@,
                import: None,
            },
        )
    } else if lookup_type(config.types, spec) is Some {
        type_from_config(spec, column, lookup_type(config.types, spec)->0)
    } else if spec_primitive(spec) is Some {
        let p = spec_primitive(spec)->0;
        Ok(
            ResolvedTypeV {
                column_name: column,
                rust_type: p.0,
                diesel_sql: p.1,
                pg_type: p.2,
                import: None,
            },
        )
    } else {
        Err(TypeErrorV::UnknownType { spec_type: spec, field })
    }
}

/// The facets of field `f` given its column name and the module of its base
/// type: the base type resolved, made a list for a list type, then wrapped
/// when the field is optional.
pub open spec fn spec_resolve_named(
    f: FieldDefV,
    types: Seq<TypeDefV>,
    config: ConfigV,
    column: Seq<char>,
    module: Seq<char>,
) -> Result<ResolvedTypeV, TypeErrorV> {
    match spec_resolve_type(base_type(types, f.spec_type), f.name, column, module, types, config) {
        Ok(r) => Ok(
            spec_wrap(
                f.optional,
                if is_list_type(types, f.spec_type) {
                    spec_list_of(r)
                } else {
                    r
                },
            ),
        ),
        Err(e) => Err(e),
    }
}

/// The facets of field `f`: its column is the snake_case field name, and a
/// spec enum lives in the module named by the snake_case type name.
pub open spec fn spec_resolve(f: FieldDefV, types: Seq<TypeDefV>, config: ConfigV) -> Result<
    ResolvedTypeV,
    TypeErrorV,
> {
    spec_resolve_named(f, types, config, snake_case(f.name), snake_case(base_type(types, f.spec_type)))
}

/// The Rust, Diesel and Postgres types of a language primitive.
fn primitive(spec: &str) -> (r: Option<(&'static str, &'static str, &'static str)>)
    ensures
        match r {
            Some(p) => spec_primitive(spec@) == Some((p.0@, p.1@, p.2@)),
            None => spec_primitive(spec@) is None,
        },
{
    if str_eq(spec, "Text") {
        Some(("String", "Varchar", "character varying(36)"))
    } else if str_eq(spec, "Int") {
        Some(("i64", "Int8", "bigint"))
    } else if str_eq(spec, "Bool") {
        Some(("bool", "Bool", "boolean"))
    } else if str_eq(spec, "Double") {
        Some(("f64", "Float8", "double precision"))
    } else {
        None
    }
}

/// `"{open}{inner}>"`.
fn wrapped(open: &str, inner: &str) -> (r: String)
    ensures
        r@ == open@ + inner@ + ">"@,
{
    let mut s = String::from_str(open);
    s.append(inner);
    s.append(">");
    s
}

/// Apply `optional`: wrap the Rust and Diesel sides.
fn wrap(field: &FieldDef, r: ResolvedType) -> (w: ResolvedType)
    ensures
        w@ == spec_wrap(field.optional, r@),
{
    if field.optional {
        let rust_type = wrapped("Option<", r.rust_type.as_str());
        let diesel_sql = wrapped("Nullable<", r.diesel_sql.as_str());
        ResolvedType {
            column_name: r.column_name,
            rust_type,
            diesel_sql,
            pg_type: r.pg_type,
            import: r.import,
        }
    } else {
        r
    }
}

/// Some type in `types` is named `name`.
fn find_enum(types: &[TypeDef], name: &str) -> (r: bool)
    ensures
        r == declares_enum(types@.map_values(|t: TypeDef| t@), name@),
{
    let ghost tv = types@.map_values(|t: TypeDef| t@);
    let mut i: usize = 0;
    while i < types.len()
        invariant
            i <= types.len(),
            tv == types@.map_values(|t: TypeDef| t@),
            forall|k: int| 0 <= k < i ==> tv[k].declared_name() != name@,
        decreases types.len() - i,
    {
        let TypeDef::Enum { name: n, .. } = &types[i];
        assert(tv[i as int].declared_name() == n@);
        if str_eq(n.as_str(), name) {
            return true;
        }
        i += 1;
    }
    false
}

/// A copy of an optional string.
fn clone_opt(o: &Option<String>) -> (r: Option<String>)
    ensures
        opt_view(r) == opt_view(*o),
{
    match o {
        Some(s) => Some(s.clone()),
        None => None,
    }
}

/// The facet `set`, or the inherited one, copied.
fn facet(set: &Option<String>, inherited: Option<&'static str>) -> (r: Option<String>)
    ensures
        opt_view(r) == facet_of(
            opt_view(*set),
            match inherited {
                Some(s) => Some(s@),
                None => None,
            },
        ),
{
    match set {
        Some(v) => Some(v.clone()),
        None => match inherited {
            Some(s) => Some(String::from_str(s)),
            None => None,
        },
    }
}

/// The facets of a list of `r`.
fn list_of(r: ResolvedType) -> (l: ResolvedType)
    ensures
        l@ == spec_list_of(r@),
{
    let rust_type = wrapped("Vec<", r.rust_type.as_str());
    let diesel_sql = wrapped("Array<", r.diesel_sql.as_str());
    let mut pg_type = r.pg_type;
    pg_type.append("[]");
    ResolvedType { column_name: r.column_name, rust_type, diesel_sql, pg_type, import: r.import }
}

/// The element type of a list type `[T]`.
pub(crate) fn list_elem_str(s: &str) -> (r: Option<String>)
    ensures
        opt_view(r) == list_elem(s@),
{
    let n = s.unicode_len();
    if n >= 2 && s.get_char(0) == '[' && s.get_char(n - 1) == ']' {
        Some(substring(s, 1, n - 1))
    } else {
        None
    }
}

/// The facets of the non-list type `spec` of the field named `field_name`.
fn resolve_type(
    spec: &str,
    field_name: &str,
    column_name: String,
    module: &str,
    types: &[TypeDef],
    config: &Config,
) -> (r: Result<ResolvedType, TypeError>)
    ensures
        match r {
            Ok(t) => spec_resolve_type(
                spec@,
                field_name@,
                column_name@,
                module@,
                types@.map_values(|t: TypeDef| t@),
                config@,
            ) == Ok::<ResolvedTypeV, TypeErrorV>(t@),
            Err(e) => spec_resolve_type(
                spec@,
                field_name@,
                column_name@,
                module@,
                types@.map_values(|t: TypeDef| t@),
                config@,
            ) == Err::<ResolvedTypeV, TypeErrorV>(e@),
        },
{
    // A custom enum from this spec's `types:` block (generated, text-backed).
    if find_enum(types, spec) {
        let mut import = String::from_str("crate::types::");
        import.append(module);
        import.append("::");
        import.append(spec);
        return Ok(
            ResolvedType {
                column_name,
                rust_type: String::from_str(spec),
                diesel_sql: String::from_str("Varchar"),
                pg_type: String::from_str("character varying(36)"),
                import: Some(import),
            },
        );
    }
    // `Id X` -> a text id column.
    if crate::text::starts_with_str(spec, "Id ") {
        return Ok(
            ResolvedType {
                column_name,
                rust_type: String::from_str("String"),
                diesel_sql: String::from_str("Varchar"),
                pg_type: String::from_str("character varying(36)"),
                import: None,
            },
        );
    }
    // Project config: custom/imported types (and primitive overrides) win. A
    // partial entry inherits omitted facets from the primitive of that name.
    if let Some(m) = config.type_mapping(spec) {
        let prim = primitive(spec);
        let rust_type = match facet(&m.rust, match prim { Some(p) => Some(p.0), None => None }) {
            Some(v) => v,
            None => return Err(
                TypeError::MissingFacet { spec_type: String::from_str(spec), facet: Facet::Rust },
            ),
        };
        let diesel_sql = match facet(&m.diesel, match prim { Some(p) => Some(p.1), None => None }) {
            Some(v) => v,
            None => return Err(
                TypeError::MissingFacet { spec_type: String::from_str(spec), facet: Facet::Diesel },
            ),
        };
        let pg_type = match facet(&m.pg, match prim { Some(p) => Some(p.2), None => None }) {
            Some(v) => v,
            None => return Err(
                TypeError::MissingFacet { spec_type: String::from_str(spec), facet: Facet::Pg },
            ),
        };
        return Ok(ResolvedType { column_name, rust_type, diesel_sql, pg_type, import: clone_opt(&m.import) });
    }
    // Language primitive (no import needed).
    if let Some((rust, diesel, pg)) = primitive(spec) {
        return Ok(
            ResolvedType {
                column_name,
                rust_type: String::from_str(rust),
                diesel_sql: String::from_str(diesel),
                pg_type: String::from_str(pg),
                import: None,
            },
        );
    }
    Err(TypeError::UnknownType { spec_type: String::from_str(spec), field: String::from_str(field_name) })
}

/// The type the rules apply to: the element type of a list type, else the
/// type itself.
fn base_type_of(spec: &str, types: &[TypeDef]) -> (r: String)
    ensures
        r@ == base_type(types@.map_values(|t: TypeDef| t@), spec@),
{
    if !find_enum(types, spec) && !crate::text::starts_with_str(spec, "Id ") {
        if let Some(e) = list_elem_str(spec) {
            return e;
        }
    }
    String::from_str(spec)
}

/// Resolve a field's type, given its column name and the generated module of
/// its base type (the snake_case names `resolve` computes).
pub fn resolve_named(
    field: &FieldDef,
    types: &[TypeDef],
    config: &Config,
    column_name: String,
    module: &str,
) -> (r: Result<ResolvedType, TypeError>)
    ensures
        match r {
            Ok(t) => spec_resolve_named(
                field@,
                types@.map_values(|t: TypeDef| t@),
                config@,
                column_name@,
                module@,
            ) == Ok::<ResolvedTypeV, TypeErrorV>(t@),
            Err(e) => spec_resolve_named(
                field@,
                types@.map_values(|t: TypeDef| t@),
                config@,
                column_name@,
                module@,
            ) == Err::<ResolvedTypeV, TypeErrorV>(e@),
        },
{
    let spec = field.spec_type.as_str();
    let base = base_type_of(spec, types);
    let list = !find_enum(types, spec) && !crate::text::starts_with_str(spec, "Id ")
        && list_elem_str(spec).is_some();
    match resolve_type(base.as_str(), field.name.as_str(), column_name, module, types, config) {
        Ok(r) => if list {
            Ok(wrap(field, list_of(r)))
        } else {
            Ok(wrap(field, r))
        },
        Err(e) => Err(e),
    }
}

/// Resolve a field's type into its Rust, Diesel and Postgres facets.
pub fn resolve(field: &FieldDef, types: &[TypeDef], config: &Config) -> (r: Result<
    ResolvedType,
    TypeError,
>)
    ensures
        match r {
            Ok(t) => spec_resolve(field@, types@.map_values(|t: TypeDef| t@), config@) == Ok::<
                ResolvedTypeV,
                TypeErrorV,
            >(t@),
            Err(e) => spec_resolve(field@, types@.map_values(|t: TypeDef| t@), config@) == Err::<
                ResolvedTypeV,
                TypeErrorV,
            >(e@),
        },
{
    let column_name = to_snake_case(field.name.as_str());
    let base = base_type_of(field.spec_type.as_str(), types);
    let module = to_snake_case(base.as_str());
    resolve_named(field, types, config, column_name, module.as_str())
}

// ---------- laws ----------

/// An optional field resolves like the same field made required, with the
/// Rust type wrapped in `Option<..>` and the Diesel type in `Nullable<..>`;
/// the column name is always the snake_case field name.
pub proof fn law_optional_wraps(f: FieldDefV, types: Seq<TypeDefV>, config: ConfigV)
    ensures
        spec_resolve(FieldDefV { optional: true, ..f }, types, config) == match spec_resolve(
            FieldDefV { optional: false, ..f },
            types,
            config,
        ) {
            Ok(r) => Ok(
                ResolvedTypeV {
                    rust_type: "Option<"@ + r.rust_type + ">"@,
                    diesel_sql: "Nullable<"@ + r.diesel_sql + ">"@,
                    ..r
                },
            ),
            Err(e) => Err::<ResolvedTypeV, TypeErrorV>(e),
        },
        spec_resolve(f, types, config) matches Ok(r) ==> r.column_name == snake_case(f.name),
{
}

/// The generator owns no custom types: with an empty registry, a field whose
/// type (the element type, for a list) is not a spec enum, an `Id X` or a
/// primitive does not resolve, and the error names that type.
pub proof fn law_no_custom_types_without_config(f: FieldDefV, types: Seq<TypeDefV>, config: ConfigV)
    requires
        config.types.len() == 0,
        !declares_enum(types, base_type(types, f.spec_type)),
        !starts_with(base_type(types, f.spec_type), "Id "@),
        spec_primitive(base_type(types, f.spec_type)) is None,
    ensures
        spec_resolve(f, types, config) == Err::<ResolvedTypeV, TypeErrorV>(
            TypeErrorV::UnknownType { spec_type: base_type(types, f.spec_type), field: f.name },
        ),
{
}

/// A list type `[T]` (with `T` not itself written as a list) resolves as a
/// field of type `T` does, whichever rule `T` resolves by: the same column
/// and import, the Rust type in `Vec<..>`, the Diesel type in `Array<..>`,
/// and the Postgres type of `T` followed by `[]`; an error resolving `T` is
/// the error.
pub proof fn law_list_types(f: FieldDefV, types: Seq<TypeDefV>, config: ConfigV)
    requires
        is_list_type(types, f.spec_type),
        list_elem(list_elem(f.spec_type)->0) is None,
    ensures
        spec_resolve(FieldDefV { optional: false, ..f }, types, config) == match spec_resolve(
            FieldDefV { spec_type: list_elem(f.spec_type)->0, optional: false, ..f },
            types,
            config,
        ) {
            Ok(r) => Ok::<ResolvedTypeV, TypeErrorV>(
                ResolvedTypeV {
                    column_name: r.column_name,
                    rust_type: "Vec<"@ + r.rust_type + ">"@,
                    diesel_sql: "Array<"@ + r.diesel_sql + ">"@,
                    pg_type: r.pg_type + "[]"@,
                    import: r.import,
                },
            ),
            Err(e) => Err::<ResolvedTypeV, TypeErrorV>(e),
        },
{
}

/// A config entry that sets only some facets of a primitive inherits the
/// others from the primitive; one for a non-primitive type must set all three.
pub proof fn law_partial_config_entries(f: FieldDefV, types: Seq<TypeDefV>, config: ConfigV)
    requires
        !declares_enum(types, f.spec_type),
        !starts_with(f.spec_type, "Id "@),
        list_elem(f.spec_type) is None,
        lookup_type(config.types, f.spec_type) is Some,
    ensures
        ({
            let m = lookup_type(config.types, f.spec_type)->0;
            match spec_primitive(f.spec_type) {
                Some(p) => spec_resolve(f, types, config) matches Ok(r) && r.pg_type == facet_of(
                    m.pg,
                    Some(p.2),
                )->0 && r.column_name == snake_case(f.name) && (!f.optional
                    ==> r.rust_type == facet_of(m.rust, Some(p.0))->0 && r.diesel_sql == facet_of(
                    m.diesel,
                    Some(p.1),
                )->0),
                None => (spec_resolve(f, types, config) is Ok) == (m.rust is Some && m.diesel is Some
                    && m.pg is Some),
            }
        }),
{
}

} // verus!
