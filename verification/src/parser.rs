//! Storage spec text -> `TableDef`. The spec is one top-level mapping whose
//! single key is the table name; its body carries `tableName`, `fields`,
//! `constraints`, `beamType`, `default` and `types` blocks.

use vstd::prelude::*;

use crate::ir::{opt_view, Constraint, FieldDef, FieldDefV, TableDef, TableDefV, TypeDef, TypeDefV};
use crate::text::{
    split_char, split_on, str_eq, strip_prefix, strip_prefix_str, to_snake_case, trim, trim_str, views,
    snake_case,
};
use crate::yaml::{
    map_get, mapping_get, parse_yaml, value_get, yaml_document, yaml_mapping, yaml_sequence,
    yaml_str, Yaml,
};

verus! {

/// Why a spec was rejected.
#[derive(Debug)]
pub enum SpecError {
    /// The text is not one well-formed YAML document; `detail` is the YAML
    /// parser's own message.
    InvalidYaml { detail: String },
    /// The top level is not a mapping.
    NotAMapping,
    /// The top-level mapping has no entry.
    Empty,
    /// The top-level key is not a string.
    TableNameNotString,
    /// The body under the table name is not a mapping.
    BodyNotMapping { table: String },
    /// A key of `fields:` is not a string.
    FieldNameNotString,
    /// The type of the named field is not a string.
    FieldTypeNotString { field: String },
    /// A key of `types:` is not a string.
    TypeNameNotString,
}

pub enum SpecErrorV {
    InvalidYaml { detail: Seq<char> },
    NotAMapping,
    Empty,
    TableNameNotString,
    BodyNotMapping { table: Seq<char> },
    FieldNameNotString,
    FieldTypeNotString { field: Seq<char> },
    TypeNameNotString,
}

impl View for SpecError {
    type V = SpecErrorV;

    open spec fn view(&self) -> SpecErrorV {
        match self {
            SpecError::InvalidYaml { detail } => SpecErrorV::InvalidYaml { detail: detail@ },
            SpecError::NotAMapping => SpecErrorV::NotAMapping,
            SpecError::Empty => SpecErrorV::Empty,
            SpecError::TableNameNotString => SpecErrorV::TableNameNotString,
            SpecError::BodyNotMapping { table } => SpecErrorV::BodyNotMapping { table: table@ },
            SpecError::FieldNameNotString => SpecErrorV::FieldNameNotString,
            SpecError::FieldTypeNotString { field } => SpecErrorV::FieldTypeNotString {
                field: field@,
            },
            SpecError::TypeNameNotString => SpecErrorV::TypeNameNotString,
        }
    }
}

impl SpecErrorV {
    /// The message the command line reports for this error.
    pub open spec fn text(self) -> Seq<char> {
        match self {
            SpecErrorV::InvalidYaml { .. } => "spec is not valid YAML"@,
            SpecErrorV::NotAMapping => "top level of a spec must be a mapping"@,
            SpecErrorV::Empty => "spec is empty"@,
            SpecErrorV::TableNameNotString => "table name must be a string"@,
            SpecErrorV::BodyNotMapping { table } => "body of `"@ + table + "` must be a mapping"@,
            SpecErrorV::FieldNameNotString => "field name must be a string"@,
            SpecErrorV::FieldTypeNotString { field } => "type of field `"@ + field
                + "` must be a string"@,
            SpecErrorV::TypeNameNotString => "type name must be a string"@,
        }
    }
}

impl SpecError {
    /// The message the command line reports for this error.
    pub fn message(&self) -> (r: String)
        ensures
            r@ == self@.text(),
    {
        match self {
            SpecError::InvalidYaml { .. } => String::from_str("spec is not valid YAML"),
            SpecError::NotAMapping => String::from_str("top level of a spec must be a mapping"),
            SpecError::Empty => String::from_str("spec is empty"),
            SpecError::TableNameNotString => String::from_str("table name must be a string"),
            SpecError::BodyNotMapping { table } => {
                let mut m = String::from_str("body of `");
                m.append(table.as_str());
                m.append("` must be a mapping");
                m
            },
            SpecError::FieldNameNotString => String::from_str("field name must be a string"),
            SpecError::FieldTypeNotString { field } => {
                let mut m = String::from_str("type of field `");
                m.append(field.as_str());
                m.append("` must be a string");
                m
            },
            SpecError::TypeNameNotString => String::from_str("type name must be a string"),
        }
    }
}

// ---------- the mathematical reading of a spec ----------

/// The mapping under `key` in `body`, if that value is a mapping.
pub open spec fn sub_mapping(body: Seq<(Yaml, Yaml)>, key: Seq<char>) -> Option<Seq<(Yaml, Yaml)>> {
    match map_get(body, key) {
        Some(v) => yaml_mapping(v),
        None => None,
    }
}

/// The string under `key` in an optional mapping.
pub open spec fn lookup_str(m: Option<Seq<(Yaml, Yaml)>>, key: Seq<char>) -> Option<Seq<char>> {
    match m {
        Some(m) => match map_get(m, key) {
            Some(v) => yaml_str(v),
            None => None,
        },
        None => None,
    }
}

/// The constraint a trimmed `|`-separated part names, if any.
pub open spec fn constraint_of(part: Seq<char>) -> Option<Constraint> {
    if trim(part) == "PrimaryKey"@ {
        Some(Constraint::PrimaryKey)
    } else if trim(part) == "SecondaryKey"@ {
        Some(Constraint::SecondaryKey)
    } else {
        None
    }
}

/// The constraints the parts name, in order; unknown parts are skipped.
pub open spec fn constraints_of(parts: Seq<Seq<char>>) -> Seq<Constraint>
    decreases parts.len(),
{
    if parts.len() == 0 {
        Seq::empty()
    } else {
        let r = constraints_of(parts.drop_last());
        match constraint_of(parts.last()) {
            Some(c) => r.push(c),
            None => r,
        }
    }
}

/// `"PrimaryKey"`, `"SecondaryKey"` or `"PrimaryKey|SecondaryKey"` as constraints.
pub open spec fn spec_parse_constraints(s: Seq<char>) -> Seq<Constraint> {
    constraints_of(split_on(s, '|'))
}

/// The field `fname: raw`, with its `beamType`, `constraints` and `default`
/// entries: `Maybe X` is optional with base type `X`, and a `|relation`
/// suffix is dropped.
pub open spec fn field_of(
    fname: Seq<char>,
    raw: Seq<char>,
    beam_type: Option<Seq<(Yaml, Yaml)>>,
    constraints: Option<Seq<(Yaml, Yaml)>>,
    defaults: Option<Seq<(Yaml, Yaml)>>,
) -> FieldDefV {
    let optional = strip_prefix(raw, "Maybe "@) is Some;
    let after_maybe = match strip_prefix(raw, "Maybe "@) {
        Some(rest) => rest,
        None => raw,
    };
    FieldDefV {
        name: fname,
        spec_type: trim(split_on(after_maybe, '|')[0]),
        optional,
        db_type_override: lookup_str(beam_type, fname),
        default: field_default(fname, lookup_str(defaults, fname)),
        constraints: match lookup_str(constraints, fname) {
            Some(s) => spec_parse_constraints(s),
            None => Seq::empty(),
        },
    }
}

/// The default of field `fname`: its `default:` entry, else `CURRENT_TIMESTAMP`
/// for a declared `createdAt` or `updatedAt` (the insert struct leaves those
/// columns out, so the database fills them).
pub open spec fn field_default(fname: Seq<char>, declared: Option<Seq<char>>) -> Option<Seq<char>> {
    match declared {
        Some(d) => Some(d),
        None => if fname == "createdAt"@ || fname == "updatedAt"@ {
            Some("CURRENT_TIMESTAMP"@)
        } else {
            None
        },
    }
}

/// The fields of a `fields:` mapping, in order; the first non-string key or
/// type is the error.
pub open spec fn fields_of(
    entries: Seq<(Yaml, Yaml)>,
    beam_type: Option<Seq<(Yaml, Yaml)>>,
    constraints: Option<Seq<(Yaml, Yaml)>>,
    defaults: Option<Seq<(Yaml, Yaml)>>,
) -> Result<Seq<FieldDefV>, SpecErrorV>
    decreases entries.len(),
{
    if entries.len() == 0 {
        Ok(Seq::empty())
    } else {
        match fields_of(entries.drop_last(), beam_type, constraints, defaults) {
            Err(e) => Err(e),
            Ok(fs) => match yaml_str(entries.last().0) {
                None => Err(SpecErrorV::FieldNameNotString),
                Some(fname) => match yaml_str(entries.last().1) {
                    None => Err(SpecErrorV::FieldTypeNotString { field: fname }),
                    Some(raw) => Ok(fs.push(field_of(fname, raw, beam_type, constraints, defaults))),
                },
            },
        }
    }
}

/// An injected timestamp field: `UTCTime`, not null, defaulting to `CURRENT_TIMESTAMP`.
pub open spec fn timestamp_field(name: Seq<char>) -> FieldDefV {
    FieldDefV {
        name,
        spec_type: "UTCTime"@,
        optional: false,
        db_type_override: None,
        default: Some("CURRENT_TIMESTAMP"@),
        constraints: Seq::empty(),
    }
}

/// Some field is named `name`.
pub open spec fn has_field(fields: Seq<FieldDefV>, name: Seq<char>) -> bool {
    exists|i: int| 0 <= i < fields.len() && fields[i].name == name
}

/// `fields` with a timestamp field `ts` appended unless one is named so already.
pub open spec fn with_timestamp(fields: Seq<FieldDefV>, ts: Seq<char>) -> Seq<FieldDefV> {
    if has_field(fields, ts) {
        fields
    } else {
        fields.push(timestamp_field(ts))
    }
}

/// `fields` with `createdAt` and then `updatedAt` injected when absent.
pub open spec fn spec_inject_timestamps(fields: Seq<FieldDefV>) -> Seq<FieldDefV> {
    with_timestamp(with_timestamp(fields, "createdAt"@), "updatedAt"@)
}

/// The first `enum:` string among the items of a `types:` entry.
pub open spec fn first_enum(items: Seq<Yaml>) -> Option<Seq<char>>
    decreases items.len(),
{
    if items.len() == 0 {
        None
    } else {
        match value_get(items[0], "enum"@) {
            Some(v) => match yaml_str(v) {
                Some(s) => Some(s),
                None => first_enum(items.drop_first()),
            },
            None => first_enum(items.drop_first()),
        }
    }
}

/// `- enum: "A,B,C"` as `["A", "B", "C"]` (each part trimmed).
pub open spec fn spec_enum_variants(val: Yaml) -> Option<Seq<Seq<char>>> {
    match yaml_sequence(val) {
        None => None,
        Some(items) => match first_enum(items) {
            Some(s) => Some(split_on(s, ',').map_values(|p: Seq<char>| trim(p))),
            None => None,
        },
    }
}

/// The enums of a `types:` mapping, in order; entries without an `enum:`
/// item are skipped, a non-string key is the error.
pub open spec fn types_of(entries: Seq<(Yaml, Yaml)>) -> Result<Seq<TypeDefV>, SpecErrorV>
    decreases entries.len(),
{
    if entries.len() == 0 {
        Ok(Seq::empty())
    } else {
        match types_of(entries.drop_last()) {
            Err(e) => Err(e),
            Ok(ts) => match yaml_str(entries.last().0) {
                None => Err(SpecErrorV::TypeNameNotString),
                Some(name) => match spec_enum_variants(entries.last().1) {
                    Some(variants) => Ok(ts.push(TypeDefV::Enum { name, variants })),
                    None => Ok(ts),
                },
            },
        }
    }
}

/// The names of the fields that carry `want`, in field order.
pub open spec fn spec_fields_with(fields: Seq<FieldDefV>, want: Constraint) -> Seq<Seq<char>>
    decreases fields.len(),
{
    if fields.len() == 0 {
        Seq::empty()
    } else {
        let r = spec_fields_with(fields.drop_last(), want);
        if fields.last().constraints.contains(want) {
            r.push(fields.last().name)
        } else {
            r
        }
    }
}

/// The table a parsed YAML document describes, or why it describes none.
pub open spec fn spec_parse_document(doc: Yaml) -> Result<TableDefV, SpecErrorV> {
    match yaml_mapping(doc) {
        None => Err(SpecErrorV::NotAMapping),
        Some(root) => if root.len() == 0 {
            Err(SpecErrorV::Empty)
        } else {
            match yaml_str(root[0].0) {
                None => Err(SpecErrorV::TableNameNotString),
                Some(name) => match yaml_mapping(root[0].1) {
                    None => Err(SpecErrorV::BodyNotMapping { table: name }),
                    Some(body) => {
                        let sql_table = match lookup_str(Some(body), "tableName"@) {
                            Some(t) => t,
                            None => snake_case(name),
                        };
                        let beam_type = sub_mapping(body, "beamType"@);
                        let constraints = sub_mapping(body, "constraints"@);
                        let defaults = sub_mapping(body, "default"@);
                        let fields = match sub_mapping(body, "fields"@) {
                            Some(entries) => fields_of(entries, beam_type, constraints, defaults),
                            None => Ok(Seq::empty()),
                        };
                        match fields {
                            Err(e) => Err(e),
                            Ok(fields) => {
                                let fields = spec_inject_timestamps(fields);
                                let types = match sub_mapping(body, "types"@) {
                                    Some(entries) => types_of(entries),
                                    None => Ok(Seq::empty()),
                                };
                                match types {
                                    Err(e) => Err(e),
                                    Ok(types) => Ok(
                                        TableDefV {
                                            name,
                                            sql_table,
                                            fields,
                                            types,
                                            primary_key: spec_fields_with(
                                                fields,
                                                Constraint::PrimaryKey,
                                            ),
                                            secondary_keys: spec_fields_with(
                                                fields,
                                                Constraint::SecondaryKey,
                                            ),
                                        },
                                    ),
                                }
                            },
                        }
                    },
                },
            }
        },
    }
}

/// The table the spec text describes, or why it describes none.
pub open spec fn spec_parse(text: Seq<char>) -> Result<TableDefV, SpecErrorV> {
    match yaml_document(text) {
        Err(detail) => Err(SpecErrorV::InvalidYaml { detail }),
        Ok(doc) => spec_parse_document(doc),
    }
}

/// An error while reading a prefix of `fields:` is the error of the whole block.
pub proof fn lemma_fields_of_error_prefix(
    entries: Seq<(Yaml, Yaml)>,
    k: int,
    beam_type: Option<Seq<(Yaml, Yaml)>>,
    constraints: Option<Seq<(Yaml, Yaml)>>,
    defaults: Option<Seq<(Yaml, Yaml)>>,
)
    requires
        0 <= k <= entries.len(),
        fields_of(entries.take(k), beam_type, constraints, defaults) is Err,
    ensures
        fields_of(entries, beam_type, constraints, defaults) == fields_of(
            entries.take(k),
            beam_type,
            constraints,
            defaults,
        ),
    decreases entries.len(),
{
    if k == entries.len() {
        assert(entries.take(k) =~= entries);
    } else {
        assert(entries.drop_last().take(k) =~= entries.take(k));
        lemma_fields_of_error_prefix(entries.drop_last(), k, beam_type, constraints, defaults);
    }
}

/// An error while reading a prefix of `types:` is the error of the whole block.
pub proof fn lemma_types_of_error_prefix(entries: Seq<(Yaml, Yaml)>, k: int)
    requires
        0 <= k <= entries.len(),
        types_of(entries.take(k)) is Err,
    ensures
        types_of(entries) == types_of(entries.take(k)),
    decreases entries.len(),
{
    if k == entries.len() {
        assert(entries.take(k) =~= entries);
    } else {
        assert(entries.drop_last().take(k) =~= entries.take(k));
        lemma_types_of_error_prefix(entries.drop_last(), k);
    }
}

/// The views of a sequence of fields.
pub open spec fn field_views(v: Seq<FieldDef>) -> Seq<FieldDefV> {
    v.map_values(|f: FieldDef| f@)
}

// ---------- executable parser ----------

/// Parse the text of one spec file into a `TableDef`.
pub fn parse_spec(text: &str) -> (r: Result<TableDef, SpecError>)
    ensures
        match r {
            Ok(t) => spec_parse(text@) == Ok::<TableDefV, SpecErrorV>(t@),
            Err(e) => spec_parse(text@) == Err::<TableDefV, SpecErrorV>(e@),
        },
{
    match parse_yaml(text) {
        Err(detail) => Err(SpecError::InvalidYaml { detail }),
        Ok(doc) => parse_document(&doc),
    }
}

/// Read a parsed YAML document into a `TableDef`.
#[verifier::loop_isolation(false)]
#[verifier::spinoff_prover]
pub fn parse_document(doc: &Yaml) -> (r: Result<TableDef, SpecError>)
    ensures
        match r {
            Ok(t) => spec_parse_document(*doc) == Ok::<TableDefV, SpecErrorV>(t@),
            Err(e) => spec_parse_document(*doc) == Err::<TableDefV, SpecErrorV>(e@),
        },
{
    let root_map = match doc.as_mapping() {
        Some(m) => m,
        None => return Err(SpecError::NotAMapping),
    };
    if root_map.len() == 0 {
        return Err(SpecError::Empty);
    }
    // 1. The single top-level key is the table name, e.g. `Ride:`.
    let name = match as_string(&root_map[0].0) {
        Some(n) => n,
        None => return Err(SpecError::TableNameNotString),
    };
    let body = match root_map[0].1.as_mapping() {
        Some(b) => b,
        None => return Err(SpecError::BodyNotMapping { table: name }),
    };
    // 2. sql_table: explicit `tableName:`, else the snake_case table name.
    let sql_table = match mapping_get(body, "tableName") {
        Some(v) => match v.as_str() {
            Some(t) => t.clone(),
            None => to_snake_case(name.as_str()),
        },
        None => to_snake_case(name.as_str()),
    };
    // Sub-mappings fields are looked up in (any may be absent).
    let beam_type = sub_mapping_of(body, "beamType");
    let constraints = sub_mapping_of(body, "constraints");
    let defaults = sub_mapping_of(body, "default");
    let ghost beam_v = opt_seq(beam_type);
    let ghost cons_v = opt_seq(constraints);
    let ghost defaults_v = opt_seq(defaults);

    // 3. Walk `fields:`.
    let mut fields: Vec<FieldDef> = Vec::new();
    assert(field_views(fields@) =~= Seq::<FieldDefV>::empty());
    let fields_block = sub_mapping_of(body, "fields");
    if let Some(fields_map) = fields_block {
        let n = fields_map.len();
        let mut i: usize = 0;
        assert(fields_map@.take(0) =~= Seq::<(Yaml, Yaml)>::empty());
        while i < n
            invariant
                i <= n,
                n == fields_map@.len(),
                fields_of(fields_map@.take(i as int), beam_v, cons_v, defaults_v) == Ok::<
                    Seq<FieldDefV>,
                    SpecErrorV,
                >(field_views(fields@)),
                beam_v == opt_seq(beam_type),
                cons_v == opt_seq(constraints),
                defaults_v == opt_seq(defaults),
            decreases n - i,
        {
            assert(fields_map@.take(i + 1).drop_last() =~= fields_map@.take(i as int));
            assert(fields_map@.take(i + 1).last() == fields_map@[i as int]);
            let fname = match as_string(&fields_map[i].0) {
                Some(f) => f,
                None => {
                    proof {
                        lemma_fields_of_error_prefix(fields_map@, i + 1, beam_v, cons_v, defaults_v);
                    }
                    return Err(SpecError::FieldNameNotString);
                },
            };
            let raw_type = match as_string(&fields_map[i].1) {
                Some(t) => t,
                None => {
                    proof {
                        lemma_fields_of_error_prefix(fields_map@, i + 1, beam_v, cons_v, defaults_v);
                    }
                    return Err(SpecError::FieldTypeNotString { field: fname });
                },
            };
            let field = build_field(fname, raw_type.as_str(), beam_type, constraints, defaults);
            let ghost before = fields@;
            fields.push(field);
            assert(field_views(fields@) =~= field_views(before).push(field@));
            i += 1;
        }
        assert(fields_map@.take(n as int) =~= fields_map@);
        assert(fields_of(fields_map@, beam_v, cons_v, defaults_v) == Ok::<Seq<FieldDefV>, SpecErrorV>(
            field_views(fields@),
        ));
    }
    // 4. Inject created_at / updated_at if absent.
    inject_timestamps(&mut fields);

    // 5. Walk `types:` (custom enums).
    let mut types: Vec<TypeDef> = Vec::new();
    assert(types@.map_values(|t: TypeDef| t@) =~= Seq::<TypeDefV>::empty());
    let types_block = sub_mapping_of(body, "types");
    if let Some(types_map) = types_block {
        let n = types_map.len();
        let mut i: usize = 0;
        assert(types_map@.take(0) =~= Seq::<(Yaml, Yaml)>::empty());
        while i < n
            invariant
                i <= n,
                n == types_map@.len(),
                types_of(types_map@.take(i as int)) == Ok::<Seq<TypeDefV>, SpecErrorV>(
                    types@.map_values(|t: TypeDef| t@),
                ),
            decreases n - i,
        {
            assert(types_map@.take(i + 1).drop_last() =~= types_map@.take(i as int));
            assert(types_map@.take(i + 1).last() == types_map@[i as int]);
            let enum_name = match as_string(&types_map[i].0) {
                Some(t) => t,
                None => {
                    proof {
                        lemma_types_of_error_prefix(types_map@, i + 1);
                    }
                    return Err(SpecError::TypeNameNotString);
                },
            };
            if let Some(variants) = enum_variants(&types_map[i].1) {
                let ghost before = types@;
                let t = TypeDef::Enum { name: enum_name, variants };
                types.push(t);
                assert(types@.map_values(|t: TypeDef| t@) =~= before.map_values(
                    |t: TypeDef| t@,
                ).push(t@));
            }
            i += 1;
        }
        assert(types_map@.take(n as int) =~= types_map@);
        assert(types_of(types_map@) == Ok::<Seq<TypeDefV>, SpecErrorV>(
            types@.map_values(|t: TypeDef| t@),
        ));
    }
    // 6. Derive primary / secondary key lists from the constraints.
    let primary_key = fields_with(&fields, Constraint::PrimaryKey);
    let secondary_keys = fields_with(&fields, Constraint::SecondaryKey);
    let table = TableDef { name, sql_table, fields, types, primary_key, secondary_keys };
    assert(table@.fields =~= field_views(table.fields@));
    Ok(table)
}

/// The views of an optional mapping.
pub open spec fn opt_seq(m: Option<&Vec<(Yaml, Yaml)>>) -> Option<Seq<(Yaml, Yaml)>> {
    match m {
        Some(v) => Some(v@),
        None => None,
    }
}

/// The mapping under `key` in `body`, if that value is a mapping.
fn sub_mapping_of<'a>(body: &'a Vec<(Yaml, Yaml)>, key: &str) -> (r: Option<&'a Vec<(Yaml, Yaml)>>)
    ensures
        opt_seq(r) == sub_mapping(body@, key@),
{
    match mapping_get(body, key) {
        Some(v) => v.as_mapping(),
        None => None,
    }
}

/// The string under `key` in an optional mapping.
fn lookup_str_in(m: Option<&Vec<(Yaml, Yaml)>>, key: &str) -> (r: Option<String>)
    ensures
        opt_view(r) == lookup_str(opt_seq(m), key@),
{
    match m {
        Some(m) => match mapping_get(m, key) {
            Some(v) => match v.as_str() {
                Some(s) => Some(s.clone()),
                None => None,
            },
            None => None,
        },
        None => None,
    }
}

/// A copy of the string `v` holds (`Value::as_str`).
pub fn as_string(v: &Yaml) -> (r: Option<String>)
    ensures
        opt_view(r) == yaml_str(*v),
{
    match v.as_str() {
        Some(s) => Some(s.clone()),
        None => None,
    }
}

/// The field `fname: raw` with its block entries (see `field_of`).
fn build_field(
    fname: String,
    raw: &str,
    beam_type: Option<&Vec<(Yaml, Yaml)>>,
    constraints: Option<&Vec<(Yaml, Yaml)>>,
    defaults: Option<&Vec<(Yaml, Yaml)>>,
) -> (r: FieldDef)
    ensures
        r@ == field_of(fname@, raw@, opt_seq(beam_type), opt_seq(constraints), opt_seq(defaults)),
{
    // `Maybe X` -> optional, base type is X.
    let stripped = strip_prefix_str(raw, "Maybe ");
    let optional = stripped.is_some();
    let after_maybe = match stripped {
        Some(rest) => rest,
        None => String::from_str(raw),
    };
    // `X|WithId` -> drop the relation suffix.
    let pieces = split_char(after_maybe.as_str(), '|');
    proof {
        crate::text::lemma_split_on_nonempty(after_maybe@, '|');
    }
    let spec_type = trim_str(pieces[0].as_str());
    let db_type_override = lookup_str_in(beam_type, fname.as_str());
    let field_constraints = match lookup_str_in(constraints, fname.as_str()) {
        Some(s) => parse_constraints(s.as_str()),
        None => Vec::new(),
    };
    let default = match lookup_str_in(defaults, fname.as_str()) {
        Some(d) => Some(d),
        None => if str_eq(fname.as_str(), "createdAt") || str_eq(fname.as_str(), "updatedAt") {
            Some(String::from_str("CURRENT_TIMESTAMP"))
        } else {
            None
        },
    };
    FieldDef {
        name: fname,
        spec_type,
        optional,
        db_type_override,
        default,
        constraints: field_constraints,
    }
}

/// `"PrimaryKey" | "SecondaryKey" | "PrimaryKey|SecondaryKey"` -> constraints.
pub fn parse_constraints(s: &str) -> (r: Vec<Constraint>)
    ensures
        r@ == spec_parse_constraints(s@),
{
    let parts = split_char(s, '|');
    let mut out: Vec<Constraint> = Vec::new();
    let mut i: usize = 0;
    assert(views(parts@).take(0) =~= Seq::<Seq<char>>::empty());
    while i < parts.len()
        invariant
            i <= parts.len(),
            views(parts@) == split_on(s@, '|'),
            out@ == constraints_of(views(parts@).take(i as int)),
        decreases parts.len() - i,
    {
        assert(views(parts@).take(i + 1).drop_last() =~= views(parts@).take(i as int));
        assert(views(parts@).take(i + 1).last() == parts@[i as int]@);
        let part = trim_str(parts[i].as_str());
        if crate::text::str_eq(part.as_str(), "PrimaryKey") {
            out.push(Constraint::PrimaryKey);
        } else if crate::text::str_eq(part.as_str(), "SecondaryKey") {
            out.push(Constraint::SecondaryKey);
        }
        i += 1;
    }
    assert(views(parts@).take(parts.len() as int) =~= views(parts@));
    out
}

/// `- enum: "A,B,C"` (a list of single-key maps) -> `["A", "B", "C"]`.
#[verifier::loop_isolation(false)]
pub fn enum_variants(val: &Yaml) -> (r: Option<Vec<String>>)
    ensures
        match r {
            Some(v) => spec_enum_variants(*val) == Some(views(v@)),
            None => spec_enum_variants(*val) is None,
        },
{
    let items = match val.as_sequence() {
        Some(items) => items,
        None => return None,
    };
    let n = items.len();
    let mut i: usize = 0;
    assert(items@.skip(0) =~= items@);
    while i < n
        invariant
            i <= n,
            n == items@.len(),
            first_enum(items@) == first_enum(items@.skip(i as int)),
        decreases n - i,
    {
        assert(items@.skip(i as int)[0] == items@[i as int]);
        assert(items@.skip(i as int).drop_first() =~= items@.skip(i + 1));
        if let Some(v) = items[i].get("enum") {
            if let Some(s) = v.as_str() {
                let parts = split_char(s.as_str(), ',');
                let mut out: Vec<String> = Vec::new();
                let mut j: usize = 0;
                while j < parts.len()
                    invariant
                        j <= parts.len(),
                        views(out@) == views(parts@).take(j as int).map_values(
                            |p: Seq<char>| trim(p),
                        ),
                    decreases parts.len() - j,
                {
                    let t = trim_str(parts[j].as_str());
                    let ghost before = out@;
                    out.push(t);
                    assert(views(out@) =~= views(before).push(t@));
                    assert(views(parts@).take(j + 1).map_values(|p: Seq<char>| trim(p))
                        =~= views(parts@).take(j as int).map_values(|p: Seq<char>| trim(p)).push(
                        trim(parts@[j as int]@),
                    ));
                    j += 1;
                }
                assert(views(parts@).take(parts.len() as int) =~= views(parts@));
                return Some(out);
            }
        }
        i += 1;
    }
    None
}

/// Append `createdAt` and `updatedAt` timestamp fields when absent.
pub fn inject_timestamps(fields: &mut Vec<FieldDef>)
    ensures
        field_views(final(fields)@) == spec_inject_timestamps(field_views(old(fields)@)),
{
    add_timestamp(fields, "createdAt");
    add_timestamp(fields, "updatedAt");
}

/// Append the timestamp field `ts` when no field is named so.
fn add_timestamp(fields: &mut Vec<FieldDef>, ts: &str)
    ensures
        field_views(final(fields)@) == with_timestamp(field_views(old(fields)@), ts@),
{
    let n = fields.len();
    let mut i: usize = 0;
    while i < n
        invariant
            i <= n,
            n == fields.len(),
            forall|k: int| 0 <= k < i ==> field_views(fields@)[k].name != ts@,
        decreases n - i,
    {
        if crate::text::str_eq(fields[i].name.as_str(), ts) {
            assert(field_views(fields@)[i as int].name == ts@);
            return;
        }
        i += 1;
    }
    let field = FieldDef {
        name: String::from_str(ts),
        spec_type: String::from_str("UTCTime"),
        optional: false,
        db_type_override: None,
        // self-default so inserts that omit timestamps still satisfy NOT NULL.
        default: Some(String::from_str("CURRENT_TIMESTAMP")),
        constraints: Vec::new(),
    };
    let ghost before = fields@;
    fields.push(field);
    assert(field@.constraints =~= Seq::<Constraint>::empty());
    assert(field_views(fields@) =~= field_views(before).push(timestamp_field(ts@)));
}

/// The names of the fields that carry `want`, in field order.
pub fn fields_with(fields: &Vec<FieldDef>, want: Constraint) -> (r: Vec<String>)
    ensures
        views(r@) == spec_fields_with(field_views(fields@), want),
{
    let mut out: Vec<String> = Vec::new();
    let mut i: usize = 0;
    assert(field_views(fields@).take(0) =~= Seq::<FieldDefV>::empty());
    while i < fields.len()
        invariant
            i <= fields.len(),
            views(out@) == spec_fields_with(field_views(fields@).take(i as int), want),
        decreases fields.len() - i,
    {
        assert(field_views(fields@).take(i + 1).drop_last() =~= field_views(fields@).take(i as int));
        assert(field_views(fields@).take(i + 1).last() == fields@[i as int]@);
        if contains_constraint(&fields[i].constraints, want) {
            let ghost before = out@;
            out.push(fields[i].name.clone());
            assert(views(out@) =~= views(before).push(fields@[i as int].name@));
        }
        i += 1;
    }
    assert(field_views(fields@).take(fields.len() as int) =~= field_views(fields@));
    out
}

/// `cs.contains(&want)`.
fn contains_constraint(cs: &Vec<Constraint>, want: Constraint) -> (r: bool)
    ensures
        r == cs@.contains(want),
{
    let mut i: usize = 0;
    while i < cs.len()
        invariant
            i <= cs.len(),
            forall|k: int| 0 <= k < i ==> cs@[k] != want,
        decreases cs.len() - i,
    {
        if cs[i] == want {
            return true;
        }
        i += 1;
    }
    false
}

// ---------- laws ----------

/// Appending a timestamp keeps every field already there, in place.
pub proof fn lemma_with_timestamp(fields: Seq<FieldDefV>, ts: Seq<char>)
    ensures
        has_field(with_timestamp(fields, ts), ts),
        with_timestamp(fields, ts).take(fields.len() as int) == fields,
        fields.len() <= with_timestamp(fields, ts).len() <= fields.len() + 1,
        forall|n: Seq<char>| has_field(fields, n) ==> has_field(with_timestamp(fields, ts), n),
{
    let w = with_timestamp(fields, ts);
    if !has_field(fields, ts) {
        assert(w[fields.len() as int].name == ts);
    }
    assert(w.take(fields.len() as int) =~= fields);
    assert forall|n: Seq<char>| has_field(fields, n) implies has_field(w, n) by {
        let i = choose|i: int| 0 <= i < fields.len() && fields[i].name == n;
        assert(w[i] == fields[i]);
    }
}

/// Timestamp injection: the spec's own fields come first and unchanged, at
/// most two fields follow, and both `createdAt` and `updatedAt` are present.
pub proof fn law_inject_timestamps(fields: Seq<FieldDefV>)
    ensures
        has_field(spec_inject_timestamps(fields), "createdAt"@),
        has_field(spec_inject_timestamps(fields), "updatedAt"@),
        spec_inject_timestamps(fields).take(fields.len() as int) == fields,
        fields.len() <= spec_inject_timestamps(fields).len() <= fields.len() + 2,
{
    let once = with_timestamp(fields, "createdAt"@);
    lemma_with_timestamp(fields, "createdAt"@);
    lemma_with_timestamp(once, "updatedAt"@);
    let twice = with_timestamp(once, "updatedAt"@);
    assert(twice.take(fields.len() as int) =~= once.take(once.len() as int).take(fields.len() as int));
    assert(once.take(once.len() as int) =~= once);
}

/// Injecting the timestamps into fields that already went through it changes
/// nothing.
pub proof fn law_inject_timestamps_idempotent(fields: Seq<FieldDefV>)
    ensures
        spec_inject_timestamps(spec_inject_timestamps(fields)) == spec_inject_timestamps(fields),
{
    law_inject_timestamps(fields);
}

/// Every table a spec parses into has a `createdAt` and an `updatedAt` field.
pub proof fn law_parsed_tables_have_timestamps(text: Seq<char>)
    ensures
        spec_parse(text) matches Ok(t) ==> has_field(t.fields, "createdAt"@) && has_field(
            t.fields,
            "updatedAt"@,
        ),
{
    assert forall|fs: Seq<FieldDefV>|
        has_field(#[trigger] spec_inject_timestamps(fs), "createdAt"@) && has_field(
            spec_inject_timestamps(fs),
            "updatedAt"@,
        ) by {
        law_inject_timestamps(fs);
    }
}

/// Some field named `name` carries `want`.
pub open spec fn carried_by_field(fields: Seq<FieldDefV>, want: Constraint, name: Seq<char>) -> bool {
    exists|k: int| 0 <= k < fields.len() && fields[k].name == name && fields[k].constraints.contains(want)
}

/// The key lists name fields of the table, each carrying its constraint, and
/// name every field that carries it.
pub proof fn law_key_fields_carry_their_constraint(fields: Seq<FieldDefV>, want: Constraint)
    ensures
        forall|i: int|
            0 <= i < spec_fields_with(fields, want).len() ==> carried_by_field(
                fields,
                want,
                #[trigger] spec_fields_with(fields, want)[i],
            ),
        forall|k: int|
            0 <= k < fields.len() && (#[trigger] fields[k]).constraints.contains(want)
                ==> spec_fields_with(fields, want).contains(fields[k].name),
    decreases fields.len(),
{
    if fields.len() > 0 {
        let prev = fields.drop_last();
        law_key_fields_carry_their_constraint(prev, want);
        let r = spec_fields_with(fields, want);
        assert forall|k: int|
            0 <= k < fields.len() && (#[trigger] fields[k]).constraints.contains(want) implies r.contains(
            fields[k].name,
        ) by {
            if k < prev.len() {
                assert(prev[k] == fields[k]);
                let x = choose|x: int|
                    0 <= x < spec_fields_with(prev, want).len() && spec_fields_with(prev, want)[x]
                        == prev[k].name;
                assert(r[x] == spec_fields_with(prev, want)[x]);
            } else {
                assert(fields[k] == fields.last());
                assert(r[r.len() - 1] == fields.last().name);
            }
        }
        assert forall|i: int| 0 <= i < r.len() implies carried_by_field(fields, want, #[trigger] r[i]) by {
            if i < spec_fields_with(prev, want).len() {
                assert(carried_by_field(prev, want, spec_fields_with(prev, want)[i]));
                let k = choose|k: int|
                    0 <= k < prev.len() && prev[k].name == spec_fields_with(prev, want)[i]
                        && prev[k].constraints.contains(want);
                assert(fields[k] == prev[k]);
            } else {
                assert(fields[fields.len() - 1] == fields.last());
            }
        }
    }
}

/// A `fields:` block reads when every key and every type is a string; then
/// each entry gives one field, in order, by the field rules (`field_of`).
pub proof fn law_fields_of(
    entries: Seq<(Yaml, Yaml)>,
    beam_type: Option<Seq<(Yaml, Yaml)>>,
    constraints: Option<Seq<(Yaml, Yaml)>>,
    defaults: Option<Seq<(Yaml, Yaml)>>,
)
    ensures
        (fields_of(entries, beam_type, constraints, defaults) is Ok) <==> forall|j: int|
            0 <= j < entries.len() ==> yaml_str(#[trigger] entries[j].0) is Some && yaml_str(
                entries[j].1,
            ) is Some,
        fields_of(entries, beam_type, constraints, defaults) matches Ok(fs) ==> {
            &&& fs.len() == entries.len()
            &&& forall|j: int|
                0 <= j < fs.len() ==> #[trigger] fs[j] == field_of(
                    yaml_str(entries[j].0)->0,
                    yaml_str(entries[j].1)->0,
                    beam_type,
                    constraints,
                    defaults,
                )
        },
    decreases entries.len(),
{
    if entries.len() > 0 {
        let prev = entries.drop_last();
        law_fields_of(prev, beam_type, constraints, defaults);
        assert forall|j: int| 0 <= j < prev.len() implies prev[j] == entries[j] by {}
        let last = entries.len() - 1;
        assert(entries[last] == entries.last());
        if !(forall|j: int|
            0 <= j < entries.len() ==> yaml_str(#[trigger] entries[j].0) is Some && yaml_str(
                entries[j].1,
            ) is Some) {
            let j = choose|j: int|
                0 <= j < entries.len() && !(yaml_str(#[trigger] entries[j].0) is Some && yaml_str(
                    entries[j].1,
                ) is Some);
            if j < prev.len() {
                assert(prev[j] == entries[j]);
            }
        }
    }
}

/// A `types:` block reads when every key is a string.
pub proof fn law_types_of(entries: Seq<(Yaml, Yaml)>)
    ensures
        (types_of(entries) is Ok) <==> forall|j: int|
            0 <= j < entries.len() ==> yaml_str(#[trigger] entries[j].0) is Some,
    decreases entries.len(),
{
    if entries.len() > 0 {
        let prev = entries.drop_last();
        law_types_of(prev);
        assert forall|j: int| 0 <= j < prev.len() implies prev[j] == entries[j] by {}
        let last = entries.len() - 1;
        assert(entries[last] == entries.last());
        if !(forall|j: int| 0 <= j < entries.len() ==> yaml_str(#[trigger] entries[j].0) is Some) {
            let j = choose|j: int| 0 <= j < entries.len() && !(yaml_str(#[trigger] entries[j].0) is Some);
            if j < prev.len() {
                assert(prev[j] == entries[j]);
            }
        }
    }
}

/// The entries of the block under `key` of a spec body; an absent block, or
/// one that is not a mapping, has none.
pub open spec fn block(body: Seq<(Yaml, Yaml)>, key: Seq<char>) -> Seq<(Yaml, Yaml)> {
    match sub_mapping(body, key) {
        Some(entries) => entries,
        None => Seq::empty(),
    }
}

/// The conditions under which a YAML document is a spec: the root is a
/// mapping with a first entry, whose key is a string and whose value is a
/// mapping (the body); every key and type of the body's `fields:` block and
/// every key of its `types:` block is a string. Root entries after the first
/// are not read.
pub open spec fn doc_accepted(doc: Yaml) -> bool {
    &&& yaml_mapping(doc) matches Some(root)
    &&& root.len() > 0
    &&& yaml_str(root[0].0) is Some
    &&& yaml_mapping(root[0].1) matches Some(body)
    &&& forall|j: int|
        0 <= j < block(body, "fields"@).len() ==> yaml_str(#[trigger] block(body, "fields"@)[j].0)
            is Some && yaml_str(block(body, "fields"@)[j].1) is Some
    &&& forall|j: int|
        0 <= j < block(body, "types"@).len() ==> yaml_str(#[trigger] block(body, "types"@)[j].0) is Some
}

/// `fields` without any entry named `n` twice.
pub open spec fn named_at_most_once(fields: Seq<FieldDefV>, n: Seq<char>) -> bool {
    forall|i: int, j: int| 0 <= i < j < fields.len() ==> !(fields[i].name == n && fields[j].name == n)
}

/// Exactly one entry of `fields` is named `n`.
pub open spec fn named_once(fields: Seq<FieldDefV>, n: Seq<char>) -> bool {
    exists|i: int|
        0 <= i < fields.len() && fields[i].name == n && forall|j: int|
            0 <= j < fields.len() && j != i ==> fields[j].name != n
}

/// The timestamp fields a spec's own fields lack: `createdAt`, then
/// `updatedAt`, each when no field has its name.
pub open spec fn missing_timestamps(fields: Seq<FieldDefV>) -> Seq<FieldDefV> {
    (if has_field(fields, "createdAt"@) {
        Seq::empty()
    } else {
        seq![timestamp_field("createdAt"@)]
    }) + (if has_field(fields, "updatedAt"@) {
        Seq::empty()
    } else {
        seq![timestamp_field("updatedAt"@)]
    })
}

/// `with_timestamp` appends a field named `ts` exactly when none has it, so a
/// name written at most once is, afterwards, written exactly once.
pub proof fn lemma_with_timestamp_once(fields: Seq<FieldDefV>, ts: Seq<char>, n: Seq<char>)
    requires
        named_at_most_once(fields, n),
    ensures
        named_at_most_once(with_timestamp(fields, ts), n),
        n == ts ==> named_once(with_timestamp(fields, ts), n),
{
    let w = with_timestamp(fields, ts);
    if !has_field(fields, ts) {
        assert(w[fields.len() as int].name == ts);
        assert forall|i: int, j: int| 0 <= i < j < w.len() implies !(w[i].name == n && w[j].name == n) by {
            if j == fields.len() {
                assert(w[i] == fields[i]);
            } else {
                assert(w[i] == fields[i] && w[j] == fields[j]);
            }
        }
        if n == ts {
            let k = fields.len() as int;
            assert forall|j: int| 0 <= j < w.len() && j != k implies w[j].name != n by {
                assert(w[j] == fields[j]);
            }
        }
    } else if n == ts {
        let k = choose|k: int| 0 <= k < fields.len() && fields[k].name == ts;
        assert forall|j: int| 0 <= j < w.len() && j != k implies w[j].name != n by {
            if j < k {
                assert(!(fields[j].name == n && fields[k].name == n));
            } else {
                assert(!(fields[k].name == n && fields[j].name == n));
            }
        }
    }
}

/// Timestamp injection appends exactly the missing timestamps, and each of
/// `createdAt` and `updatedAt` that the spec's fields name at most once is
/// then named exactly once.
pub proof fn law_inject_timestamps_exact(fields: Seq<FieldDefV>)
    ensures
        spec_inject_timestamps(fields) == fields + missing_timestamps(fields),
        named_at_most_once(fields, "createdAt"@) ==> named_once(
            spec_inject_timestamps(fields),
            "createdAt"@,
        ),
        named_at_most_once(fields, "updatedAt"@) ==> named_once(
            spec_inject_timestamps(fields),
            "updatedAt"@,
        ),
{
    reveal_strlit("createdAt");
    reveal_strlit("updatedAt");
    assert("createdAt"@[0] != "updatedAt"@[0]);
    let once = with_timestamp(fields, "createdAt"@);
    lemma_with_timestamp(fields, "createdAt"@);
    assert(has_field(once, "updatedAt"@) == has_field(fields, "updatedAt"@)) by {
        if has_field(once, "updatedAt"@) {
            let i = choose|i: int| 0 <= i < once.len() && once[i].name == "updatedAt"@;
            if i < fields.len() {
                assert(once[i] == fields[i]);
            }
        }
    }
    assert(spec_inject_timestamps(fields) =~= fields + missing_timestamps(fields));
    if named_at_most_once(fields, "createdAt"@) {
        lemma_with_timestamp_once(fields, "createdAt"@, "createdAt"@);
        lemma_with_timestamp_once(once, "updatedAt"@, "createdAt"@);
        let w = spec_inject_timestamps(fields);
        let k = choose|k: int|
            0 <= k < once.len() && once[k].name == "createdAt"@ && forall|j: int|
                0 <= j < once.len() && j != k ==> once[j].name != "createdAt"@;
        assert(w[k] == once[k]);
        assert forall|j: int| 0 <= j < w.len() && j != k implies w[j].name != "createdAt"@ by {
            if j < once.len() {
                assert(w[j] == once[j]);
            }
        }
    }
    if named_at_most_once(fields, "updatedAt"@) {
        lemma_with_timestamp_once(fields, "createdAt"@, "updatedAt"@);
        lemma_with_timestamp_once(once, "updatedAt"@, "updatedAt"@);
    }
}

/// What a parsed spec holds. The table is named by the root's first key; its
/// SQL table is the body's `tableName` string, else the snake_case name; its
/// fields are those of the `fields:` block in order, each by the field rules
/// (`Maybe ` marks it optional, a `|` suffix is dropped, `beamType`,
/// `default` and `constraints` entries under its name are read, a declared
/// timestamp without a default defaults to `CURRENT_TIMESTAMP`), then the
/// missing timestamps; `createdAt` and `updatedAt` each name exactly one
/// field when the block declares them at most once; the key lists name, in
/// field order, the fields carrying `PrimaryKey` and `SecondaryKey`.
pub proof fn law_parsed_table(doc: Yaml)
    ensures
        spec_parse_document(doc) matches Ok(t) ==> {
            let root = yaml_mapping(doc)->0;
            let body = yaml_mapping(root[0].1)->0;
            let entries = block(body, "fields"@);
            let beam_type = sub_mapping(body, "beamType"@);
            let constraints = sub_mapping(body, "constraints"@);
            let defaults = sub_mapping(body, "default"@);
            let declared = t.fields.take(entries.len() as int);
            &&& t.name == yaml_str(root[0].0)->0
            &&& t.sql_table == match lookup_str(Some(body), "tableName"@) {
                Some(n) => n,
                None => snake_case(t.name),
            }
            &&& entries.len() <= t.fields.len()
            &&& t.fields == declared + missing_timestamps(declared)
            &&& forall|j: int|
                0 <= j < entries.len() ==> {
                    let name = yaml_str(entries[j].0)->0;
                    let raw = yaml_str(entries[j].1)->0;
                    let after = match strip_prefix(raw, "Maybe "@) {
                        Some(rest) => rest,
                        None => raw,
                    };
                    &&& (#[trigger] t.fields[j]).name == name
                    &&& t.fields[j].optional == (strip_prefix(raw, "Maybe "@) is Some)
                    &&& t.fields[j].spec_type == trim(split_on(after, '|')[0])
                    &&& t.fields[j].db_type_override == lookup_str(beam_type, name)
                    &&& t.fields[j].default == field_default(name, lookup_str(defaults, name))
                    &&& t.fields[j].constraints == match lookup_str(constraints, name) {
                        Some(c) => spec_parse_constraints(c),
                        None => Seq::empty(),
                    }
                }
            &&& named_at_most_once(declared, "createdAt"@) ==> named_once(t.fields, "createdAt"@)
            &&& named_at_most_once(declared, "updatedAt"@) ==> named_once(t.fields, "updatedAt"@)
            &&& t.primary_key == spec_fields_with(t.fields, Constraint::PrimaryKey)
            &&& t.secondary_keys == spec_fields_with(t.fields, Constraint::SecondaryKey)
        },
{
    if spec_parse_document(doc) is Ok {
        let t = spec_parse_document(doc)->Ok_0;
        let root = yaml_mapping(doc)->0;
        let body = yaml_mapping(root[0].1)->0;
        let entries = block(body, "fields"@);
        let beam_type = sub_mapping(body, "beamType"@);
        let constraints = sub_mapping(body, "constraints"@);
        let defaults = sub_mapping(body, "default"@);
        law_fields_of(entries, beam_type, constraints, defaults);
        let declared = fields_of(entries, beam_type, constraints, defaults)->Ok_0;
        law_inject_timestamps_exact(declared);
        assert(t.fields == declared + missing_timestamps(declared));
        assert(t.fields.take(entries.len() as int) =~= declared);
        assert forall|j: int| 0 <= j < entries.len() implies #[trigger] t.fields[j] == declared[j] by {}
    }
}

/// A spec is refused exactly when its text is not YAML, or the document is
/// not a spec by `doc_accepted`.
pub proof fn law_parse_fails_iff(text: Seq<char>)
    ensures
        (spec_parse(text) is Err) <==> match yaml_document(text) {
            Err(_) => true,
            Ok(doc) => !doc_accepted(doc),
        },
{
    if yaml_document(text) is Ok {
        let doc = yaml_document(text)->Ok_0;
        if yaml_mapping(doc) is Some {
            let root = yaml_mapping(doc)->0;
            if root.len() > 0 && yaml_mapping(root[0].1) is Some {
                let body = yaml_mapping(root[0].1)->0;
                law_fields_of(
                    block(body, "fields"@),
                    sub_mapping(body, "beamType"@),
                    sub_mapping(body, "constraints"@),
                    sub_mapping(body, "default"@),
                );
                law_types_of(block(body, "types"@));
            }
        }
    }
}

/// How many entries of a `types:` block carry an `enum:` item.
pub open spec fn enum_entry_count(entries: Seq<(Yaml, Yaml)>) -> nat
    decreases entries.len(),
{
    if entries.len() == 0 {
        0
    } else {
        enum_entry_count(entries.drop_last()) + if spec_enum_variants(entries.last().1) is Some {
            1nat
        } else {
            0nat
        }
    }
}

/// The count over a prefix never exceeds the count over the whole block, and
/// grows by one exactly at an entry with an `enum:` item.
pub proof fn lemma_enum_entry_count_take(entries: Seq<(Yaml, Yaml)>, j: int)
    requires
        0 <= j < entries.len(),
    ensures
        enum_entry_count(entries.take(j + 1)) == enum_entry_count(entries.take(j)) + if spec_enum_variants(
            entries[j].1,
        ) is Some {
            1nat
        } else {
            0nat
        },
        enum_entry_count(entries.take(j + 1)) <= enum_entry_count(entries),
    decreases entries.len(),
{
    assert(entries.take(j + 1).drop_last() =~= entries.take(j));
    if j + 1 == entries.len() {
        assert(entries.take(j + 1) =~= entries);
    } else {
        let prev = entries.drop_last();
        lemma_enum_entry_count_take(prev, j);
        assert(prev.take(j + 1) =~= entries.take(j + 1));
        assert(prev.take(j) =~= entries.take(j));
        assert(prev[j] == entries[j]);
    }
}

/// A `types:` block gives one enum per entry with an `enum:` item, in entry
/// order: their number is the number of such entries, and the entry at
/// position `j` gives the enum at the position counting such entries before
/// it, named by the entry's key and holding that item's variants.
pub proof fn law_types_of_entries(entries: Seq<(Yaml, Yaml)>)
    ensures
        types_of(entries) matches Ok(ts) ==> {
            &&& ts.len() == enum_entry_count(entries)
            &&& forall|j: int|
                0 <= j < entries.len() && spec_enum_variants(#[trigger] entries[j].1) is Some ==> ts[enum_entry_count(
                    entries.take(j),
                ) as int] == (TypeDefV::Enum {
                    name: yaml_str(entries[j].0)->0,
                    variants: spec_enum_variants(entries[j].1)->0,
                })
        },
    decreases entries.len(),
{
    if entries.len() > 0 && types_of(entries) is Ok {
        let prev = entries.drop_last();
        law_types_of_entries(prev);
        let ts = types_of(entries)->Ok_0;
        let tp = types_of(prev)->Ok_0;
        let last = entries.len() - 1;
        assert(entries[last] == entries.last());
        assert(entries.take(last) =~= prev);
        assert forall|j: int|
            0 <= j < entries.len() && spec_enum_variants(#[trigger] entries[j].1) is Some implies ts[enum_entry_count(
                entries.take(j),
            ) as int] == (TypeDefV::Enum {
                name: yaml_str(entries[j].0)->0,
                variants: spec_enum_variants(entries[j].1)->0,
            }) by {
            if j < last {
                assert(prev[j] == entries[j]);
                assert(prev.take(j) =~= entries.take(j));
                lemma_enum_entry_count_take(prev, j);
                assert(spec_enum_variants(prev[j].1) is Some);
                assert(tp[enum_entry_count(prev.take(j)) as int] == (TypeDefV::Enum {
                    name: yaml_str(prev[j].0)->0,
                    variants: spec_enum_variants(prev[j].1)->0,
                }));
            }
        }
    }
}

/// The enums of a parsed spec are those of its `types:` block: one per
/// entry with an `enum:` item, in entry order, as `law_types_of_entries`
/// states; so no such entry is dropped.
pub proof fn law_parsed_types(doc: Yaml)
    ensures
        spec_parse_document(doc) matches Ok(t) ==> {
            let root = yaml_mapping(doc)->0;
            let body = yaml_mapping(root[0].1)->0;
            let entries = block(body, "types"@);
            &&& t.types.len() == enum_entry_count(entries)
            &&& forall|j: int|
                0 <= j < entries.len() && spec_enum_variants(#[trigger] entries[j].1) is Some
                    ==> t.types[enum_entry_count(entries.take(j)) as int] == (TypeDefV::Enum {
                    name: yaml_str(entries[j].0)->0,
                    variants: spec_enum_variants(entries[j].1)->0,
                })
        },
{
    if spec_parse_document(doc) is Ok {
        let root = yaml_mapping(doc)->0;
        let body = yaml_mapping(root[0].1)->0;
        law_types_of_entries(block(body, "types"@));
    }
}

} // verus!
