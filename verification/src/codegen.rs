//! Code generators: per table, a `diesel::table!` schema file, the row and
//! insert model structs, the text-backed enums of `types:`, and an up/down
//! migration pair; plus the crate scaffold (`Cargo.toml`, `src/lib.rs`).

use vstd::prelude::*;

use crate::config::{lookup_type, names_unique, Config, ConfigV};
use crate::ir::{table_views, FieldDefV, TableDef, TableDefV, TypeDef, TypeDefV};
use crate::text::{
    concat, join, join_str, pad4, pad4_str, snake_case, split_once, split_once_char, str_eq,
    str_lt, seq_lt, starts_with, to_snake_case, trim, trim_str, views,
};
use crate::typemap::{
    declares_enum, list_elem, list_elem_str, resolve, spec_resolve, ResolvedType, ResolvedTypeV,
    TypeError, TypeErrorV,
};

verus! {

/// A file the generator produced: path relative to the output crate, and contents.
#[derive(Debug, Clone)]
pub struct GeneratedFile {
    /// e.g. `src/schema/ride.rs`.
    pub path: String,
    pub contents: String,
}

pub struct GeneratedFileV {
    pub path: Seq<char>,
    pub contents: Seq<char>,
}

impl View for GeneratedFile {
    type V = GeneratedFileV;

    open spec fn view(&self) -> GeneratedFileV {
        GeneratedFileV { path: self.path@, contents: self.contents@ }
    }
}

/// The views of a sequence of files.
pub open spec fn file_views(v: Seq<GeneratedFile>) -> Seq<GeneratedFileV> {
    v.map_values(|f: GeneratedFile| f@)
}

/// The generator that needs a table's primary key.
#[derive(Debug, Clone, Copy, PartialEq, Eq, Structural)]
pub enum KeyedGenerator {
    Schema,
    Models,
    Migrations,
}

/// Why generation failed.
#[derive(Debug)]
pub enum GenError {
    /// The named table has no primary key, which `generator` needs
    /// (`diesel::table!` for the schema, `Identifiable` and the SQL key otherwise).
    NoPrimaryKey { table: String, generator: KeyedGenerator },
    /// A field's type did not resolve.
    Type(TypeError),
}

pub enum GenErrorV {
    NoPrimaryKey { table: Seq<char>, generator: KeyedGenerator },
    Type(TypeErrorV),
}

impl View for GenError {
    type V = GenErrorV;

    open spec fn view(&self) -> GenErrorV {
        match self {
            GenError::NoPrimaryKey { table, generator } => GenErrorV::NoPrimaryKey {
                table: table@,
                generator: *generator,
            },
            GenError::Type(e) => GenErrorV::Type(e@),
        }
    }
}

impl GenErrorV {
    /// The message the command line reports for this error; the schema
    /// generator adds why it needs the key.
    pub open spec fn text(self) -> Seq<char> {
        match self {
            GenErrorV::NoPrimaryKey { table, generator } => if generator == KeyedGenerator::Schema {
                "table `"@ + table + "` has no primary key (diesel::table! requires one)"@
            } else {
                "table `"@ + table + "` has no primary key"@
            },
            GenErrorV::Type(e) => e.text(),
        }
    }
}

impl GenError {
    /// The message the command line reports for this error.
    pub fn message(&self) -> (r: String)
        ensures
            r@ == self@.text(),
    {
        match self {
            GenError::NoPrimaryKey { table, generator } => {
                let mut m = String::from_str("table `");
                m.append(table.as_str());
                match generator {
                    KeyedGenerator::Schema => m.append(
                        "` has no primary key (diesel::table! requires one)",
                    ),
                    _ => m.append("` has no primary key"),
                }
                m
            },
            GenError::Type(e) => e.message(),
        }
    }
}

// ---------- generic folds ----------

/// `f` applied to each of `xs` in order; the first error stops the fold.
pub open spec fn all_ok<A, B>(xs: Seq<A>, f: spec_fn(A) -> Result<B, GenErrorV>) -> Result<
    Seq<B>,
    GenErrorV,
>
    decreases xs.len(),
{
    if xs.len() == 0 {
        Ok(Seq::empty())
    } else {
        match all_ok(xs.drop_last(), f) {
            Err(e) => Err(e),
            Ok(bs) => match f(xs.last()) {
                Err(e) => Err(e),
                Ok(b) => Ok(bs.push(b)),
            },
        }
    }
}

/// An error on a prefix is the error of the whole fold.
pub proof fn lemma_all_ok_error_prefix<A, B>(
    xs: Seq<A>,
    k: int,
    f: spec_fn(A) -> Result<B, GenErrorV>,
)
    requires
        0 <= k <= xs.len(),
        all_ok(xs.take(k), f) is Err,
    ensures
        all_ok(xs, f) == all_ok(xs.take(k), f),
    decreases xs.len(),
{
    if k == xs.len() {
        assert(xs.take(k) =~= xs);
    } else {
        assert(xs.drop_last().take(k) =~= xs.take(k));
        lemma_all_ok_error_prefix(xs.drop_last(), k, f);
    }
}

/// A successful fold has one result per input.
pub proof fn lemma_all_ok_len<A, B>(xs: Seq<A>, f: spec_fn(A) -> Result<B, GenErrorV>)
    ensures
        all_ok(xs, f) matches Ok(bs) ==> bs.len() == xs.len(),
    decreases xs.len(),
{
    if xs.len() > 0 {
        lemma_all_ok_len(xs.drop_last(), f);
    }
}

/// A successful fold's `i`-th result is `f` of the `i`-th input.
pub proof fn lemma_all_ok_index<A, B>(xs: Seq<A>, f: spec_fn(A) -> Result<B, GenErrorV>, i: int)
    requires
        all_ok(xs, f) is Ok,
        0 <= i < xs.len(),
    ensures
        f(xs[i]) == Ok::<B, GenErrorV>(all_ok(xs, f)->Ok_0[i]),
    decreases xs.len(),
{
    lemma_all_ok_len(xs, f);
    lemma_all_ok_len(xs.drop_last(), f);
    if i < xs.len() - 1 {
        lemma_all_ok_index(xs.drop_last(), f, i);
    }
}

/// A type error as a generation error.
pub open spec fn type_err<T>(r: Result<T, TypeErrorV>) -> Result<T, GenErrorV> {
    match r {
        Ok(t) => Ok(t),
        Err(e) => Err(GenErrorV::Type(e)),
    }
}

/// The resolved facets of every field of `t`, in order.
pub open spec fn resolve_all(t: TableDefV, config: ConfigV) -> Result<Seq<ResolvedTypeV>, GenErrorV> {
    all_ok(t.fields, |f: FieldDefV| type_err(spec_resolve(f, t.types, config)))
}

/// The views of resolved types.
pub open spec fn resolved_views(v: Seq<ResolvedType>) -> Seq<ResolvedTypeV> {
    v.map_values(|r: ResolvedType| r@)
}

/// The snake_case column names of the primary-key fields.
pub open spec fn pk_columns(pk: Seq<Seq<char>>) -> Seq<Seq<char>> {
    pk.map_values(|f: Seq<char>| snake_case(f))
}

/// The error for a table without a primary key.
pub open spec fn no_pk(t: TableDefV, generator: KeyedGenerator) -> GenErrorV {
    GenErrorV::NoPrimaryKey { table: t.name, generator }
}

/// Resolve every field of `table`.
fn resolve_fields(table: &TableDef, config: &Config) -> (r: Result<Vec<ResolvedType>, GenError>)
    ensures
        match r {
            Ok(rs) => resolve_all(table@, config@) == Ok::<Seq<ResolvedTypeV>, GenErrorV>(
                resolved_views(rs@),
            ),
            Err(e) => resolve_all(table@, config@) == Err::<Seq<ResolvedTypeV>, GenErrorV>(e@),
        },
{
    let ghost t = table@;
    let ghost f = |f: FieldDefV| type_err(spec_resolve(f, t.types, config@));
    let mut out: Vec<ResolvedType> = Vec::new();
    let mut i: usize = 0;
    assert(t.fields.take(0) =~= Seq::<FieldDefV>::empty());
    assert(resolved_views(out@) =~= Seq::<ResolvedTypeV>::empty());
    while i < table.fields.len()
        invariant
            i <= table.fields.len(),
            t == table@,
            t.fields.len() == table.fields.len(),
            f == (|f: FieldDefV| type_err(spec_resolve(f, t.types, config@))),
            all_ok(t.fields.take(i as int), f) == Ok::<Seq<ResolvedTypeV>, GenErrorV>(
                resolved_views(out@),
            ),
        decreases table.fields.len() - i,
    {
        assert(t.fields.take(i + 1).drop_last() =~= t.fields.take(i as int));
        assert(t.fields.take(i + 1).last() == table.fields@[i as int]@);
        assert(table.types@.map_values(|x: TypeDef| x@) == t.types);
        match resolve(&table.fields[i], table.types.as_slice(), config) {
            Ok(r) => {
                let ghost before = out@;
                out.push(r);
                assert(resolved_views(out@) =~= resolved_views(before).push(r@));
            },
            Err(e) => {
                proof {
                    lemma_all_ok_error_prefix(t.fields, i + 1, f);
                }
                return Err(GenError::Type(e));
            },
        }
        i += 1;
    }
    assert(t.fields.take(table.fields.len() as int) =~= t.fields);
    Ok(out)
}

/// The snake_case column names of `names`.
fn snake_all(names: &Vec<String>) -> (r: Vec<String>)
    ensures
        views(r@) == views(names@).map_values(|f: Seq<char>| snake_case(f)),
{
    let mut out: Vec<String> = Vec::new();
    let mut i: usize = 0;
    while i < names.len()
        invariant
            i <= names.len(),
            views(out@) == views(names@).take(i as int).map_values(|f: Seq<char>| snake_case(f)),
        decreases names.len() - i,
    {
        let s = to_snake_case(names[i].as_str());
        let ghost before = out@;
        out.push(s);
        assert(views(out@) =~= views(before).push(s@));
        assert(views(names@).take(i + 1).map_values(|f: Seq<char>| snake_case(f)) =~= views(
            names@,
        ).take(i as int).map_values(|f: Seq<char>| snake_case(f)).push(snake_case(names@[i as int]@)));
        i += 1;
    }
    assert(views(names@).take(names.len() as int) =~= views(names@));
    out
}

/// `"{a}{b}{c}"`.
fn cat3(a: &str, b: &str, c: &str) -> (r: String)
    ensures
        r@ == a@ + b@ + c@,
{
    let mut s = String::from_str(a);
    s.append(b);
    s.append(c);
    s
}

// ---------- schema ----------

/// One column row of a `diesel::table!` block.
pub open spec fn column_line(r: ResolvedTypeV) -> Seq<char> {
    "        "@ + r.column_name + " -> "@ + r.diesel_sql + ",\n"@
}

/// A `diesel::table!` block for `table` with primary-key header `pk`.
pub open spec fn schema_text(table: Seq<char>, pk: Seq<char>, rs: Seq<ResolvedTypeV>) -> Seq<char> {
    "diesel::table! {\n    "@ + table + " ("@ + pk + ") {\n"@ + concat(
        rs.map_values(|r: ResolvedTypeV| column_line(r)),
    ) + "    }\n}\n"@
}

/// The schema file of one table.
pub open spec fn schema_file(t: TableDefV, config: ConfigV) -> Result<GeneratedFileV, GenErrorV> {
    if t.primary_key.len() == 0 {
        Err(no_pk(t, KeyedGenerator::Schema))
    } else {
        match resolve_all(t, config) {
            Err(e) => Err(e),
            Ok(rs) => Ok(
                GeneratedFileV {
                    path: "src/schema/"@ + t.sql_table + ".rs"@,
                    contents: schema_text(t.sql_table, join(pk_columns(t.primary_key), ", "@), rs),
                },
            ),
        }
    }
}

/// The common `schema/mod.rs`: a module per table and the rule that lets the
/// tables appear in one query.
pub open spec fn schema_mod_text(names: Seq<Seq<char>>) -> Seq<char> {
    concat(names.map_values(|n: Seq<char>| "pub mod "@ + n + ";\n"@))
        + "\ndiesel::allow_tables_to_appear_in_same_query!(\n"@ + concat(
        names.map_values(|n: Seq<char>| "    "@ + n + ",\n"@),
    ) + ");\n"@
}

/// The SQL table names, in order.
pub open spec fn sql_tables(tables: Seq<TableDefV>) -> Seq<Seq<char>> {
    tables.map_values(|t: TableDefV| t.sql_table)
}

/// The per-table schema files.
pub open spec fn schema_files(tables: Seq<TableDefV>, config: ConfigV) -> Result<
    Seq<GeneratedFileV>,
    GenErrorV,
> {
    all_ok(tables, |t: TableDefV| schema_file(t, config))
}

/// What `generate_schema` returns.
pub open spec fn spec_generate_schema(tables: Seq<TableDefV>, config: ConfigV) -> Result<
    Seq<GeneratedFileV>,
    GenErrorV,
> {
    match schema_files(tables, config) {
        Err(e) => Err(e),
        Ok(files) => Ok(
            files.push(
                GeneratedFileV {
                    path: "src/schema/mod.rs"@,
                    contents: schema_mod_text(sql_tables(tables)),
                },
            ),
        ),
    }
}

/// The columns of a `diesel::table!` block.
fn column_block(rs: &Vec<ResolvedType>) -> (r: String)
    ensures
        r@ == concat(resolved_views(rs@).map_values(|r: ResolvedTypeV| column_line(r))),
{
    let ghost f = |r: ResolvedTypeV| column_line(r);
    let mut out = String::new();
    let mut i: usize = 0;
    while i < rs.len()
        invariant
            i <= rs.len(),
            f == (|r: ResolvedTypeV| column_line(r)),
            out@ == concat(resolved_views(rs@).take(i as int).map_values(f)),
        decreases rs.len() - i,
    {
        out.append("        ");
        out.append(rs[i].column_name.as_str());
        out.append(" -> ");
        out.append(rs[i].diesel_sql.as_str());
        out.append(",\n");
        assert(resolved_views(rs@).take(i + 1).map_values(f).drop_last() =~= resolved_views(
            rs@,
        ).take(i as int).map_values(f));
        i += 1;
    }
    assert(resolved_views(rs@).take(rs.len() as int) =~= resolved_views(rs@));
    out
}

/// The `diesel::table!` block of table `sql_table`, given its primary-key
/// header `pk` (the key columns, comma-joined) and its resolved fields.
pub fn render_schema(sql_table: &str, pk: &str, rs: &Vec<ResolvedType>) -> (r: String)
    ensures
        r@ == schema_text(sql_table@, pk@, resolved_views(rs@)),
{
    let mut contents = String::from_str("diesel::table! {\n    ");
    contents.append(sql_table);
    contents.append(" (");
    contents.append(pk);
    contents.append(") {\n");
    let columns = column_block(&rs);
    contents.append(columns.as_str());
    contents.append("    }\n}\n");
    contents
}

/// The schema file of one table.
fn schema_file_of(table: &TableDef, config: &Config) -> (r: Result<GeneratedFile, GenError>)
    ensures
        match r {
            Ok(f) => schema_file(table@, config@) == Ok::<GeneratedFileV, GenErrorV>(f@),
            Err(e) => schema_file(table@, config@) == Err::<GeneratedFileV, GenErrorV>(e@),
        },
{
    // diesel::table! requires a primary key header: fail fast, never silent.
    if table.primary_key.len() == 0 {
        return Err(
            GenError::NoPrimaryKey { table: table.name.clone(), generator: KeyedGenerator::Schema },
        );
    }
    let rs = match resolve_fields(table, config) {
        Ok(rs) => rs,
        Err(e) => return Err(e),
    };
    // The header uses the snake_case column names, in key order (composite keys too).
    let pk = join_str(&snake_all(&table.primary_key), ", ");
    let contents = render_schema(table.sql_table.as_str(), pk.as_str(), &rs);
    let path = cat3("src/schema/", table.sql_table.as_str(), ".rs");
    Ok(GeneratedFile { path, contents })
}

/// `concat` of `prefix + name + suffix` over `names`.
pub open spec fn wrap_each(names: Seq<Seq<char>>, prefix: Seq<char>, suffix: Seq<char>) -> Seq<char> {
    concat(names.map_values(|n: Seq<char>| prefix + n + suffix))
}

/// `prefix + name + suffix` for each of `names`, concatenated.
fn wrap_each_str(names: &Vec<String>, prefix: &str, suffix: &str) -> (r: String)
    ensures
        r@ == wrap_each(views(names@), prefix@, suffix@),
{
    let ghost f = |n: Seq<char>| prefix@ + n + suffix@;
    let mut out = String::new();
    let mut i: usize = 0;
    while i < names.len()
        invariant
            i <= names.len(),
            f == (|n: Seq<char>| prefix@ + n + suffix@),
            out@ == concat(views(names@).take(i as int).map_values(f)),
        decreases names.len() - i,
    {
        out.append(prefix);
        out.append(names[i].as_str());
        out.append(suffix);
        assert(views(names@).take(i + 1).map_values(f).drop_last() =~= views(names@).take(
            i as int,
        ).map_values(f));
        i += 1;
    }
    assert(views(names@).take(names.len() as int) =~= views(names@));
    out
}

/// Generate the schema files for a set of tables: one `diesel::table!` file
/// per table (`src/schema/<table>.rs`) plus a common `src/schema/mod.rs`.
pub fn generate_schema(tables: &[TableDef], config: &Config) -> (r: Result<
    Vec<GeneratedFile>,
    GenError,
>)
    ensures
        match r {
            Ok(files) => spec_generate_schema(table_views(tables@), config@) == Ok::<
                Seq<GeneratedFileV>,
                GenErrorV,
            >(file_views(files@)),
            Err(e) => spec_generate_schema(table_views(tables@), config@) == Err::<
                Seq<GeneratedFileV>,
                GenErrorV,
            >(e@),
        },
{
    let ghost tv = table_views(tables@);
    let ghost f = |t: TableDefV| schema_file(t, config@);
    let mut files: Vec<GeneratedFile> = Vec::new();
    let mut module_names: Vec<String> = Vec::new();
    let mut i: usize = 0;
    assert(tv.take(0) =~= Seq::<TableDefV>::empty());
    assert(file_views(files@) =~= Seq::<GeneratedFileV>::empty());
    assert(views(module_names@) =~= sql_tables(tv.take(0)));
    while i < tables.len()
        invariant
            i <= tables.len(),
            tv == table_views(tables@),
            f == (|t: TableDefV| schema_file(t, config@)),
            all_ok(tv.take(i as int), f) == Ok::<Seq<GeneratedFileV>, GenErrorV>(
                file_views(files@),
            ),
            views(module_names@) == sql_tables(tv.take(i as int)),
        decreases tables.len() - i,
    {
        assert(tv.take(i + 1).drop_last() =~= tv.take(i as int));
        assert(tv.take(i + 1).last() == tables@[i as int]@);
        match schema_file_of(&tables[i], config) {
            Ok(file) => {
                let ghost before = files@;
                files.push(file);
                assert(file_views(files@) =~= file_views(before).push(file@));
            },
            Err(e) => {
                proof {
                    lemma_all_ok_error_prefix(tv, i + 1, f);
                }
                return Err(e);
            },
        }
        let ghost names_before = module_names@;
        module_names.push(tables[i].sql_table.clone());
        assert(views(module_names@) =~= views(names_before).push(tables@[i as int].sql_table@));
        assert(sql_tables(tv.take(i + 1)) =~= sql_tables(tv.take(i as int)).push(
            tables@[i as int].sql_table@,
        ));
        i += 1;
    }
    assert(tv.take(tables.len() as int) =~= tv);
    let mut contents = wrap_each_str(&module_names, "pub mod ", ";\n");
    contents.append("\ndiesel::allow_tables_to_appear_in_same_query!(\n");
    let listed = wrap_each_str(&module_names, "    ", ",\n");
    contents.append(listed.as_str());
    contents.append(");\n");
    let ghost before = files@;
    let file = GeneratedFile { path: String::from_str("src/schema/mod.rs"), contents };
    files.push(file);
    assert(file_views(files@) =~= file_views(before).push(file@));
    Ok(files)
}

// ---------- models ----------

/// The imports every model file starts with.
pub open spec fn initial_imports(sql_table: Seq<char>) -> Seq<Seq<char>> {
    seq!["diesel::prelude::*"@, "crate::schema::"@ + sql_table]
}

/// `imports` extended with each resolved import not already present, in field order.
pub open spec fn add_imports(imports: Seq<Seq<char>>, rs: Seq<ResolvedTypeV>) -> Seq<Seq<char>>
    decreases rs.len(),
{
    if rs.len() == 0 {
        imports
    } else {
        let acc = add_imports(imports, rs.drop_last());
        match rs.last().import {
            Some(p) => if acc.contains(p) {
                acc
            } else {
                acc.push(p)
            },
            None => acc,
        }
    }
}

/// The auto-injected timestamps, which the insert struct leaves to the database.
pub open spec fn is_timestamp(name: Seq<char>) -> bool {
    name == "createdAt"@ || name == "updatedAt"@
}

/// The resolved fields of the insert struct: all but the timestamps. `rs[k]`
/// is the resolution of `fields[k]`.
pub open spec fn insert_fields(fields: Seq<FieldDefV>, rs: Seq<ResolvedTypeV>) -> Seq<ResolvedTypeV>
    decreases rs.len(),
{
    if rs.len() == 0 {
        Seq::empty()
    } else {
        let acc = insert_fields(fields, rs.drop_last());
        if is_timestamp(fields[rs.len() - 1].name) {
            acc
        } else {
            acc.push(rs.last())
        }
    }
}

/// One field of a model struct.
pub open spec fn model_field_line(r: ResolvedTypeV) -> Seq<char> {
    "    pub "@ + r.column_name + ": "@ + r.rust_type + ",\n"@
}

/// The field lines of a model struct.
pub open spec fn model_fields_text(rs: Seq<ResolvedTypeV>) -> Seq<char> {
    concat(rs.map_values(|r: ResolvedTypeV| model_field_line(r)))
}

/// The key is the default `id` of `Identifiable`.
pub open spec fn is_default_pk(pk_cols: Seq<Seq<char>>) -> bool {
    pk_cols.len() == 1 && pk_cols[0] == "id"@
}

/// The `primary_key` attribute, emitted only when the key is not the default `id`.
pub open spec fn pk_attr(pk_cols: Seq<Seq<char>>) -> Seq<char> {
    if is_default_pk(pk_cols) {
        Seq::empty()
    } else {
        "#[diesel(primary_key("@ + join(pk_cols, ", "@) + "))]\n"@
    }
}

/// A model file: the imports, the row struct with every column, and the
/// `New<Name>` insert struct.
pub open spec fn model_text(
    imports: Seq<Seq<char>>,
    sql_table: Seq<char>,
    name: Seq<char>,
    pk_cols: Seq<Seq<char>>,
    row: Seq<ResolvedTypeV>,
    insert: Seq<ResolvedTypeV>,
) -> Seq<char> {
    wrap_each(imports, "use "@, ";\n"@)
        + "\n#[derive(Debug, Clone, Queryable, Selectable, Identifiable)]\n#[diesel(table_name = "@
        + sql_table + ")]\n"@ + pk_attr(pk_cols)
        + "#[diesel(check_for_backend(diesel::pg::Pg))]\npub struct "@ + name + " {\n"@
        + model_fields_text(row)
        + "}\n\n#[derive(Debug, Clone, Insertable)]\n#[diesel(table_name = "@ + sql_table
        + ")]\npub struct New"@ + name + " {\n"@ + model_fields_text(insert) + "}\n"@
}

/// The model file of one table.
pub open spec fn model_file(t: TableDefV, config: ConfigV) -> Result<GeneratedFileV, GenErrorV> {
    if t.primary_key.len() == 0 {
        Err(no_pk(t, KeyedGenerator::Models))
    } else {
        match resolve_all(t, config) {
            Err(e) => Err(e),
            Ok(rs) => Ok(
                GeneratedFileV {
                    path: "src/models/"@ + t.sql_table + ".rs"@,
                    contents: model_text(
                        add_imports(initial_imports(t.sql_table), rs),
                        t.sql_table,
                        t.name,
                        pk_columns(t.primary_key),
                        rs,
                        insert_fields(t.fields, rs),
                    ),
                },
            ),
        }
    }
}

/// A `mod.rs` declaring each of `modules`, one per line.
pub open spec fn mod_list_text(modules: Seq<Seq<char>>) -> Seq<char> {
    join(modules.map_values(|m: Seq<char>| "pub mod "@ + m + ";"@), "\n"@) + "\n"@
}

/// The per-table model files.
pub open spec fn model_files(tables: Seq<TableDefV>, config: ConfigV) -> Result<
    Seq<GeneratedFileV>,
    GenErrorV,
> {
    all_ok(tables, |t: TableDefV| model_file(t, config))
}

/// What `generate_models` returns.
pub open spec fn spec_generate_models(tables: Seq<TableDefV>, config: ConfigV) -> Result<
    Seq<GeneratedFileV>,
    GenErrorV,
> {
    match model_files(tables, config) {
        Err(e) => Err(e),
        Ok(files) => Ok(
            files.push(
                GeneratedFileV {
                    path: "src/models/mod.rs"@,
                    contents: mod_list_text(sql_tables(tables)),
                },
            ),
        ),
    }
}

/// `s` is among `v`.
fn contains_str(v: &Vec<String>, s: &str) -> (r: bool)
    ensures
        r == views(v@).contains(s@),
{
    let mut i: usize = 0;
    while i < v.len()
        invariant
            i <= v.len(),
            forall|k: int| 0 <= k < i ==> views(v@)[k] != s@,
        decreases v.len() - i,
    {
        if str_eq(v[i].as_str(), s) {
            assert(views(v@)[i as int] == s@);
            return true;
        }
        i += 1;
    }
    false
}

/// The deduplicated imports of a model file.
fn model_imports(sql_table: &str, rs: &Vec<ResolvedType>) -> (r: Vec<String>)
    ensures
        views(r@) == add_imports(initial_imports(sql_table@), resolved_views(rs@)),
{
    // `use diesel::prelude::*` brings the derives into scope; the schema import
    // lets `table_name = <t>` resolve.
    let mut imports: Vec<String> = Vec::new();
    imports.push(String::from_str("diesel::prelude::*"));
    let mut schema_import = String::from_str("crate::schema::");
    schema_import.append(sql_table);
    imports.push(schema_import);
    assert(views(imports@) =~= initial_imports(sql_table@));
    let ghost init = initial_imports(sql_table@);
    let mut i: usize = 0;
    assert(resolved_views(rs@).take(0) =~= Seq::<ResolvedTypeV>::empty());
    while i < rs.len()
        invariant
            i <= rs.len(),
            init == initial_imports(sql_table@),
            views(imports@) == add_imports(init, resolved_views(rs@).take(i as int)),
        decreases rs.len() - i,
    {
        assert(resolved_views(rs@).take(i + 1).drop_last() =~= resolved_views(rs@).take(i as int));
        assert(resolved_views(rs@).take(i + 1).last() == rs@[i as int]@);
        if let Some(import) = &rs[i].import {
            if !contains_str(&imports, import.as_str()) {
                let ghost before = imports@;
                imports.push(import.clone());
                assert(views(imports@) =~= views(before).push(import@));
            }
        }
        i += 1;
    }
    assert(resolved_views(rs@).take(rs.len() as int) =~= resolved_views(rs@));
    imports
}

/// The field lines of the row struct.
fn model_fields_str(rs: &Vec<ResolvedType>) -> (r: String)
    ensures
        r@ == model_fields_text(resolved_views(rs@)),
{
    let ghost f = |r: ResolvedTypeV| model_field_line(r);
    let mut out = String::new();
    let mut i: usize = 0;
    while i < rs.len()
        invariant
            i <= rs.len(),
            f == (|r: ResolvedTypeV| model_field_line(r)),
            out@ == concat(resolved_views(rs@).take(i as int).map_values(f)),
        decreases rs.len() - i,
    {
        out.append("    pub ");
        out.append(rs[i].column_name.as_str());
        out.append(": ");
        out.append(rs[i].rust_type.as_str());
        out.append(",\n");
        assert(resolved_views(rs@).take(i + 1).map_values(f).drop_last() =~= resolved_views(
            rs@,
        ).take(i as int).map_values(f));
        i += 1;
    }
    assert(resolved_views(rs@).take(rs.len() as int) =~= resolved_views(rs@));
    out
}

/// The field lines of the insert struct: every field but the timestamps.
fn insert_fields_str(table: &TableDef, rs: &Vec<ResolvedType>) -> (r: String)
    requires
        rs.len() == table.fields.len(),
    ensures
        r@ == model_fields_text(insert_fields(table@.fields, resolved_views(rs@))),
{
    let ghost fv = table@.fields;
    let ghost f = |r: ResolvedTypeV| model_field_line(r);
    let mut out = String::new();
    let mut i: usize = 0;
    assert(resolved_views(rs@).take(0) =~= Seq::<ResolvedTypeV>::empty());
    assert(insert_fields(fv, Seq::<ResolvedTypeV>::empty()).map_values(f) =~= Seq::<Seq<char>>::empty());
    while i < rs.len()
        invariant
            i <= rs.len(),
            rs.len() == table.fields.len(),
            fv == table@.fields,
            f == (|r: ResolvedTypeV| model_field_line(r)),
            out@ == concat(insert_fields(fv, resolved_views(rs@).take(i as int)).map_values(f)),
        decreases rs.len() - i,
    {
        let ghost prefix = resolved_views(rs@).take(i + 1);
        assert(prefix.drop_last() =~= resolved_views(rs@).take(i as int));
        assert(prefix.last() == rs@[i as int]@);
        assert(fv[i as int] == table.fields@[i as int]@);
        let name = table.fields[i].name.as_str();
        if !str_eq(name, "createdAt") && !str_eq(name, "updatedAt") {
            out.append("    pub ");
            out.append(rs[i].column_name.as_str());
            out.append(": ");
            out.append(rs[i].rust_type.as_str());
            out.append(",\n");
            assert(insert_fields(fv, prefix).map_values(f) =~= insert_fields(
                fv,
                resolved_views(rs@).take(i as int),
            ).map_values(f).push(model_field_line(rs@[i as int]@)));
            assert(insert_fields(fv, prefix).map_values(f).drop_last() =~= insert_fields(
                fv,
                resolved_views(rs@).take(i as int),
            ).map_values(f));
        }
        i += 1;
    }
    assert(resolved_views(rs@).take(rs.len() as int) =~= resolved_views(rs@));
    out
}

/// The model file of one table.
fn model_file_of(table: &TableDef, config: &Config) -> (r: Result<GeneratedFile, GenError>)
    ensures
        match r {
            Ok(f) => model_file(table@, config@) == Ok::<GeneratedFileV, GenErrorV>(f@),
            Err(e) => model_file(table@, config@) == Err::<GeneratedFileV, GenErrorV>(e@),
        },
{
    if table.primary_key.len() == 0 {
        return Err(
            GenError::NoPrimaryKey { table: table.name.clone(), generator: KeyedGenerator::Models },
        );
    }
    let rs = match resolve_fields(table, config) {
        Ok(rs) => rs,
        Err(e) => return Err(e),
    };
    proof {
        lemma_all_ok_len(table@.fields, |f: FieldDefV| type_err(spec_resolve(f, table@.types, config@)));
    }
    let imports = model_imports(table.sql_table.as_str(), &rs);
    // Identifiable defaults its primary key to `id`; name the key only when it differs.
    let pk_cols = snake_all(&table.primary_key);
    let default_pk = pk_cols.len() == 1 && str_eq(pk_cols[0].as_str(), "id");
    assert(default_pk == is_default_pk(pk_columns(table@.primary_key)));
    let mut contents = wrap_each_str(&imports, "use ", ";\n");
    contents.append("\n#[derive(Debug, Clone, Queryable, Selectable, Identifiable)]\n#[diesel(table_name = ");
    contents.append(table.sql_table.as_str());
    contents.append(")]\n");
    if !default_pk {
        let pk = join_str(&pk_cols, ", ");
        contents.append("#[diesel(primary_key(");
        contents.append(pk.as_str());
        contents.append("))]\n");
    }
    contents.append("#[diesel(check_for_backend(diesel::pg::Pg))]\npub struct ");
    contents.append(table.name.as_str());
    contents.append(" {\n");
    let ghost head = contents@;
    assert(head =~= wrap_each(views(imports@), "use "@, ";\n"@)
        + "\n#[derive(Debug, Clone, Queryable, Selectable, Identifiable)]\n#[diesel(table_name = "@
        + table@.sql_table + ")]\n"@ + pk_attr(pk_columns(table@.primary_key))
        + "#[diesel(check_for_backend(diesel::pg::Pg))]\npub struct "@ + table@.name + " {\n"@);
    let row = model_fields_str(&rs);
    contents.append(row.as_str());
    contents.append("}\n\n#[derive(Debug, Clone, Insertable)]\n#[diesel(table_name = ");
    contents.append(table.sql_table.as_str());
    contents.append(")]\npub struct New");
    contents.append(table.name.as_str());
    contents.append(" {\n");
    let insert = insert_fields_str(table, &rs);
    contents.append(insert.as_str());
    contents.append("}\n");
    let path = cat3("src/models/", table.sql_table.as_str(), ".rs");
    Ok(GeneratedFile { path, contents })
}

/// `pub mod <m>;` for each module, one per line.
fn mod_list(modules: &Vec<String>) -> (r: String)
    ensures
        r@ == mod_list_text(views(modules@)),
{
    let mut lines: Vec<String> = Vec::new();
    let mut i: usize = 0;
    while i < modules.len()
        invariant
            i <= modules.len(),
            views(lines@) == views(modules@).take(i as int).map_values(
                |m: Seq<char>| "pub mod "@ + m + ";"@,
            ),
        decreases modules.len() - i,
    {
        let line = cat3("pub mod ", modules[i].as_str(), ";");
        let ghost before = lines@;
        lines.push(line);
        assert(views(lines@) =~= views(before).push(line@));
        assert(views(modules@).take(i + 1).map_values(|m: Seq<char>| "pub mod "@ + m + ";"@)
            =~= views(modules@).take(i as int).map_values(|m: Seq<char>| "pub mod "@ + m + ";"@).push(
            "pub mod "@ + modules@[i as int]@ + ";"@,
        ));
        i += 1;
    }
    assert(views(modules@).take(modules.len() as int) =~= views(modules@));
    let mut out = join_str(&lines, "\n");
    out.append("\n");
    out
}

/// Generate the model structs for a set of tables: a `Queryable`/`Selectable`/
/// `Identifiable` row struct and an `Insertable` `New<Name>` struct per table
/// under `src/models/<table>.rs`, plus `src/models/mod.rs`.
pub fn generate_models(tables: &[TableDef], config: &Config) -> (r: Result<
    Vec<GeneratedFile>,
    GenError,
>)
    ensures
        match r {
            Ok(files) => spec_generate_models(table_views(tables@), config@) == Ok::<
                Seq<GeneratedFileV>,
                GenErrorV,
            >(file_views(files@)),
            Err(e) => spec_generate_models(table_views(tables@), config@) == Err::<
                Seq<GeneratedFileV>,
                GenErrorV,
            >(e@),
        },
{
    let ghost tv = table_views(tables@);
    let ghost f = |t: TableDefV| model_file(t, config@);
    let mut files: Vec<GeneratedFile> = Vec::new();
    let mut module_names: Vec<String> = Vec::new();
    let mut i: usize = 0;
    assert(tv.take(0) =~= Seq::<TableDefV>::empty());
    assert(file_views(files@) =~= Seq::<GeneratedFileV>::empty());
    assert(views(module_names@) =~= sql_tables(tv.take(0)));
    while i < tables.len()
        invariant
            i <= tables.len(),
            tv == table_views(tables@),
            f == (|t: TableDefV| model_file(t, config@)),
            all_ok(tv.take(i as int), f) == Ok::<Seq<GeneratedFileV>, GenErrorV>(
                file_views(files@),
            ),
            views(module_names@) == sql_tables(tv.take(i as int)),
        decreases tables.len() - i,
    {
        assert(tv.take(i + 1).drop_last() =~= tv.take(i as int));
        assert(tv.take(i + 1).last() == tables@[i as int]@);
        match model_file_of(&tables[i], config) {
            Ok(file) => {
                let ghost before = files@;
                files.push(file);
                assert(file_views(files@) =~= file_views(before).push(file@));
            },
            Err(e) => {
                proof {
                    lemma_all_ok_error_prefix(tv, i + 1, f);
                }
                return Err(e);
            },
        }
        let ghost names_before = module_names@;
        module_names.push(tables[i].sql_table.clone());
        assert(views(module_names@) =~= views(names_before).push(tables@[i as int].sql_table@));
        assert(sql_tables(tv.take(i + 1)) =~= sql_tables(tv.take(i as int)).push(
            tables@[i as int].sql_table@,
        ));
        i += 1;
    }
    assert(tv.take(tables.len() as int) =~= tv);
    let contents = mod_list(&module_names);
    let ghost before = files@;
    let file = GeneratedFile { path: String::from_str("src/models/mod.rs"), contents };
    files.push(file);
    assert(file_views(files@) =~= file_views(before).push(file@));
    Ok(files)
}

// ---------- custom types ----------

/// Every declared type of the tables, in table order.
pub open spec fn all_types(tables: Seq<TableDefV>) -> Seq<TypeDefV>
    decreases tables.len(),
{
    if tables.len() == 0 {
        Seq::empty()
    } else {
        all_types(tables.drop_last()) + tables.last().types
    }
}

/// The module an enum is generated in: its snake_case name.
pub open spec fn enum_module(ty: TypeDefV) -> Seq<char> {
    snake_case(ty.declared_name())
}

/// `s` without repeats, keeping first occurrences in order.
pub open spec fn dedup(s: Seq<Seq<char>>) -> Seq<Seq<char>>
    decreases s.len(),
{
    if s.len() == 0 {
        Seq::empty()
    } else {
        let acc = dedup(s.drop_last());
        if acc.contains(s.last()) {
            acc
        } else {
            acc.push(s.last())
        }
    }
}

/// One match arm of `as_str`.
pub open spec fn as_str_arm(name: Seq<char>, v: Seq<char>) -> Seq<char> {
    "            "@ + name + "::"@ + v + " => \""@ + v + "\",\n"@
}

/// One match arm of `from_str`.
pub open spec fn from_str_arm(name: Seq<char>, v: Seq<char>) -> Seq<char> {
    "            \""@ + v + "\" => Ok("@ + name + "::"@ + v + "),\n"@
}

/// A text-backed Rust enum whose variants are the spec values verbatim, with
/// `as_str`/`from_str` (an unknown value is an error, never a panic), the
/// Diesel `ToSql`/`FromSql` impls over `Text`, and a round-trip test.
pub open spec fn enum_text(name: Seq<char>, variants: Seq<Seq<char>>) -> Seq<char> {
    "use diesel::deserialize::{self, FromSql, FromSqlRow};\nuse diesel::expression::AsExpression;\nuse diesel::pg::{Pg, PgValue};\nuse diesel::serialize::{self, IsNull, Output, ToSql};\nuse diesel::sql_types::Text;\nuse serde::{Deserialize, Serialize};\nuse std::io::Write;\n\n#[allow(non_camel_case_types)]\n#[derive(Debug, Clone, Copy, PartialEq, Eq, Serialize, Deserialize, AsExpression, FromSqlRow)]\n#[diesel(sql_type = Text)]\npub enum "@
        + name + " {\n"@ + wrap_each(variants, "    "@, ",\n"@) + "}\n\nimpl "@ + name
        + " {\n    pub fn as_str(&self) -> &'static str {\n        match self {\n"@
        + concat(variants.map_values(|v: Seq<char>| as_str_arm(name, v)))
        + "        }\n    }\n\n    pub fn from_str(s: &str) -> deserialize::Result<Self> {\n        match s {\n"@
        + concat(variants.map_values(|v: Seq<char>| from_str_arm(name, v))) + "            other => Err([\"unknown "@
        + name + " value: \", other].concat().into()),\n        }\n    }\n}\n\nimpl ToSql<Text, Pg> for "@ + name
        + " {\n    fn to_sql<'b>(&'b self, out: &mut Output<'b, '_, Pg>) -> serialize::Result {\n        out.write_all(self.as_str().as_bytes())?;\n        Ok(IsNull::No)\n    }\n}\n\nimpl FromSql<Text, Pg> for "@
        + name + " {\n    fn from_sql(bytes: PgValue<'_>) -> deserialize::Result<Self> {\n        "@ + name
        + "::from_str(std::str::from_utf8(bytes.as_bytes())?)\n    }\n}\n\n#[cfg(test)]\nmod tests {\n    use super::*;\n\n    #[test]\n    fn round_trips_every_variant() {\n        for v in ["@
        + join(variants.map_values(|v: Seq<char>| name + "::"@ + v), ", "@)
        + "] {\n            assert_eq!("@ + name + "::from_str(v.as_str()).ok(), Some(v));\n        }\n        assert!("@
        + name + "::from_str(\"bogus\").is_err());\n    }\n}\n"@
}

/// The file of one declared enum.
pub open spec fn type_file(ty: TypeDefV) -> GeneratedFileV {
    match ty {
        TypeDefV::Enum { name, variants } => GeneratedFileV {
            path: "src/types/"@ + snake_case(name) + ".rs"@,
            contents: enum_text(name, variants),
        },
    }
}

/// The type files of `types`, then a `mod.rs` when there is any module.
pub open spec fn type_files_for(types: Seq<TypeDefV>) -> Seq<GeneratedFileV> {
    let files = types.map_values(|ty: TypeDefV| type_file(ty));
    let modules = dedup(types.map_values(|ty: TypeDefV| enum_module(ty)));
    if modules.len() == 0 {
        files
    } else {
        files.push(GeneratedFileV { path: "src/types/mod.rs"@, contents: mod_list_text(modules) })
    }
}

/// What `generate_types` returns.
pub open spec fn spec_generate_types(tables: Seq<TableDefV>) -> Seq<GeneratedFileV> {
    type_files_for(all_types(tables))
}

/// The `as_str` arms.
fn as_str_arms(name: &str, variants: &Vec<String>) -> (r: String)
    ensures
        r@ == concat(views(variants@).map_values(|v: Seq<char>| as_str_arm(name@, v))),
{
    let ghost f = |v: Seq<char>| as_str_arm(name@, v);
    let mut out = String::new();
    let mut i: usize = 0;
    while i < variants.len()
        invariant
            i <= variants.len(),
            f == (|v: Seq<char>| as_str_arm(name@, v)),
            out@ == concat(views(variants@).take(i as int).map_values(f)),
        decreases variants.len() - i,
    {
        out.append("            ");
        out.append(name);
        out.append("::");
        out.append(variants[i].as_str());
        out.append(" => \"");
        out.append(variants[i].as_str());
        out.append("\",\n");
        assert(views(variants@).take(i + 1).map_values(f).drop_last() =~= views(variants@).take(
            i as int,
        ).map_values(f));
        i += 1;
    }
    assert(views(variants@).take(variants.len() as int) =~= views(variants@));
    out
}

/// The `from_str` arms.
fn from_str_arms(name: &str, variants: &Vec<String>) -> (r: String)
    ensures
        r@ == concat(views(variants@).map_values(|v: Seq<char>| from_str_arm(name@, v))),
{
    let ghost f = |v: Seq<char>| from_str_arm(name@, v);
    let mut out = String::new();
    let mut i: usize = 0;
    while i < variants.len()
        invariant
            i <= variants.len(),
            f == (|v: Seq<char>| from_str_arm(name@, v)),
            out@ == concat(views(variants@).take(i as int).map_values(f)),
        decreases variants.len() - i,
    {
        out.append("            \"");
        out.append(variants[i].as_str());
        out.append("\" => Ok(");
        out.append(name);
        out.append("::");
        out.append(variants[i].as_str());
        out.append("),\n");
        assert(views(variants@).take(i + 1).map_values(f).drop_last() =~= views(variants@).take(
            i as int,
        ).map_values(f));
        i += 1;
    }
    assert(views(variants@).take(variants.len() as int) =~= views(variants@));
    out
}

/// `<name>::<v>` for each variant, comma-separated.
fn variant_paths(name: &str, variants: &Vec<String>) -> (r: String)
    ensures
        r@ == join(views(variants@).map_values(|v: Seq<char>| name@ + "::"@ + v), ", "@),
{
    let mut paths: Vec<String> = Vec::new();
    let mut i: usize = 0;
    while i < variants.len()
        invariant
            i <= variants.len(),
            views(paths@) == views(variants@).take(i as int).map_values(
                |v: Seq<char>| name@ + "::"@ + v,
            ),
        decreases variants.len() - i,
    {
        let p = cat3(name, "::", variants[i].as_str());
        let ghost before = paths@;
        paths.push(p);
        assert(views(paths@) =~= views(before).push(p@));
        assert(views(variants@).take(i + 1).map_values(|v: Seq<char>| name@ + "::"@ + v)
            =~= views(variants@).take(i as int).map_values(|v: Seq<char>| name@ + "::"@ + v).push(
            name@ + "::"@ + variants@[i as int]@,
        ));
        i += 1;
    }
    assert(views(variants@).take(variants.len() as int) =~= views(variants@));
    join_str(&paths, ", ")
}

/// The source of one text-backed enum.
fn enum_source(name: &str, variants: &Vec<String>) -> (r: String)
    ensures
        r@ == enum_text(name@, views(variants@)),
{
    let mut out = String::from_str(
        "use diesel::deserialize::{self, FromSql, FromSqlRow};\nuse diesel::expression::AsExpression;\nuse diesel::pg::{Pg, PgValue};\nuse diesel::serialize::{self, IsNull, Output, ToSql};\nuse diesel::sql_types::Text;\nuse serde::{Deserialize, Serialize};\nuse std::io::Write;\n\n#[allow(non_camel_case_types)]\n#[derive(Debug, Clone, Copy, PartialEq, Eq, Serialize, Deserialize, AsExpression, FromSqlRow)]\n#[diesel(sql_type = Text)]\npub enum ",
    );
    out.append(name);
    out.append(" {\n");
    let decls = wrap_each_str(variants, "    ", ",\n");
    out.append(decls.as_str());
    out.append("}\n\nimpl ");
    out.append(name);
    out.append(" {\n    pub fn as_str(&self) -> &'static str {\n        match self {\n");
    let arms = as_str_arms(name, variants);
    out.append(arms.as_str());
    out.append(
        "        }\n    }\n\n    pub fn from_str(s: &str) -> deserialize::Result<Self> {\n        match s {\n",
    );
    let arms = from_str_arms(name, variants);
    out.append(arms.as_str());
    out.append("            other => Err([\"unknown ");
    out.append(name);
    out.append(" value: \", other].concat().into()),\n        }\n    }\n}\n\nimpl ToSql<Text, Pg> for ");
    out.append(name);
    out.append(
        " {\n    fn to_sql<'b>(&'b self, out: &mut Output<'b, '_, Pg>) -> serialize::Result {\n        out.write_all(self.as_str().as_bytes())?;\n        Ok(IsNull::No)\n    }\n}\n\nimpl FromSql<Text, Pg> for ",
    );
    out.append(name);
    out.append(" {\n    fn from_sql(bytes: PgValue<'_>) -> deserialize::Result<Self> {\n        ");
    out.append(name);
    out.append(
        "::from_str(std::str::from_utf8(bytes.as_bytes())?)\n    }\n}\n\n#[cfg(test)]\nmod tests {\n    use super::*;\n\n    #[test]\n    fn round_trips_every_variant() {\n        for v in [",
    );
    let paths = variant_paths(name, variants);
    out.append(paths.as_str());
    out.append("] {\n            assert_eq!(");
    out.append(name);
    out.append("::from_str(v.as_str()).ok(), Some(v));\n        }\n        assert!(");
    out.append(name);
    out.append("::from_str(\"bogus\").is_err());\n    }\n}\n");
    out
}

/// Generate the custom enum types: each `types:` enum becomes a text-backed
/// Rust enum under `src/types/<snake>.rs` (the `crate::types::<snake>::<Name>`
/// path the type mapper imports), plus `src/types/mod.rs` when there is any.
#[verifier::loop_isolation(false)]
#[verifier::spinoff_prover]
#[verifier::rlimit(60)]
pub fn generate_types(tables: &[TableDef], _config: &Config) -> (r: Result<
    Vec<GeneratedFile>,
    GenError,
>)
    ensures
        r matches Ok(files) && file_views(files@) == spec_generate_types(table_views(tables@)),
{
    let ghost tv = table_views(tables@);
    let mut files: Vec<GeneratedFile> = Vec::new();
    let mut module_names: Vec<String> = Vec::new();
    let ghost mut done: Seq<TypeDefV> = Seq::empty();
    let mut i: usize = 0;
    assert(tv.take(0) =~= Seq::<TableDefV>::empty());
    assert(file_views(files@) =~= Seq::<GeneratedFileV>::empty());
    assert(views(module_names@) =~= Seq::<Seq<char>>::empty());
    while i < tables.len()
        invariant
            i <= tables.len(),
            tv == table_views(tables@),
            done == all_types(tv.take(i as int)),
            file_views(files@) == done.map_values(|ty: TypeDefV| type_file(ty)),
            views(module_names@) == dedup(done.map_values(|ty: TypeDefV| enum_module(ty))),
        decreases tables.len() - i,
    {
        let types = &tables[i].types;
        let ghost tys = tv[i as int].types;
        assert(tys == types@.map_values(|t: TypeDef| t@));
        let mut j: usize = 0;
        assert(tys.take(0) =~= Seq::<TypeDefV>::empty());
        assert(done + tys.take(0) =~= done);
        while j < types.len()
            invariant
                j <= types.len(),
                tys == types@.map_values(|t: TypeDef| t@),
                file_views(files@) == (done + tys.take(j as int)).map_values(
                    |ty: TypeDefV| type_file(ty),
                ),
                views(module_names@) == dedup(
                    (done + tys.take(j as int)).map_values(|ty: TypeDefV| enum_module(ty)),
                ),
            decreases types.len() - j,
        {
            let TypeDef::Enum { name, variants } = &types[j];
            let ghost ty = tys[j as int];
            assert(ty == types@[j as int]@);
            let ghost seen = done + tys.take(j as int);
            assert(done + tys.take(j + 1) =~= seen.push(ty));
            let module = to_snake_case(name.as_str());
            let contents = enum_source(name.as_str(), variants);
            let path = cat3("src/types/", module.as_str(), ".rs");
            let file = GeneratedFile { path, contents };
            let ghost files_before = files@;
            files.push(file);
            assert(file_views(files@) =~= file_views(files_before).push(file@));
            assert(seen.push(ty).map_values(|ty: TypeDefV| type_file(ty)) =~= seen.map_values(
                |ty: TypeDefV| type_file(ty),
            ).push(type_file(ty)));
            let ghost mods = seen.push(ty).map_values(|ty: TypeDefV| enum_module(ty));
            assert(mods.drop_last() =~= seen.map_values(|ty: TypeDefV| enum_module(ty)));
            assert(mods.last() == module@);
            if !contains_str(&module_names, module.as_str()) {
                let ghost names_before = module_names@;
                module_names.push(module);
                assert(views(module_names@) =~= views(names_before).push(mods.last()));
            }
            j += 1;
        }
        assert(tys.take(types.len() as int) =~= tys);
        assert(tv.take(i + 1).drop_last() =~= tv.take(i as int));
        proof {
            done = done + tys;
        }
        i += 1;
    }
    assert(tv.take(tables.len() as int) =~= tv);
    if module_names.len() > 0 {
        let contents = mod_list(&module_names);
        let ghost before = files@;
        let file = GeneratedFile { path: String::from_str("src/types/mod.rs"), contents };
        files.push(file);
        assert(file_views(files@) =~= file_views(before).push(file@));
    }
    Ok(files)
}

// ---------- migrations ----------

/// The primary key is the single column `col`, declared inline.
pub open spec fn is_inline_pk(pk_cols: Seq<Seq<char>>, col: Seq<char>) -> bool {
    pk_cols.len() == 1 && pk_cols[0] == col
}

/// `<col> <pg_type> [NOT NULL] [DEFAULT <d>] [PRIMARY KEY]`; an inline primary
/// key already implies `NOT NULL`.
pub open spec fn body_line(f: FieldDefV, r: ResolvedTypeV, inline_pk: bool) -> Seq<char> {
    r.column_name + " "@ + r.pg_type + (if !f.optional && !inline_pk {
        " NOT NULL"@
    } else {
        Seq::empty()
    }) + (match f.default {
        Some(d) => " DEFAULT "@ + d,
        None => Seq::empty(),
    }) + (if inline_pk {
        " PRIMARY KEY"@
    } else {
        Seq::empty()
    })
}

/// The column lines of a `CREATE TABLE`; `rs[k]` is the resolution of `fields[k]`.
pub open spec fn column_lines(
    fields: Seq<FieldDefV>,
    rs: Seq<ResolvedTypeV>,
    pk_cols: Seq<Seq<char>>,
) -> Seq<Seq<char>>
    decreases rs.len(),
{
    if rs.len() == 0 {
        Seq::empty()
    } else {
        column_lines(fields, rs.drop_last(), pk_cols).push(
            body_line(
                fields[rs.len() - 1],
                rs.last(),
                is_inline_pk(pk_cols, rs.last().column_name),
            ),
        )
    }
}

/// The lines of a `CREATE TABLE`: the columns, then a table-level
/// `PRIMARY KEY (..)` when the key is composite.
pub open spec fn table_body(
    fields: Seq<FieldDefV>,
    rs: Seq<ResolvedTypeV>,
    pk_cols: Seq<Seq<char>>,
) -> Seq<Seq<char>> {
    if pk_cols.len() == 1 {
        column_lines(fields, rs, pk_cols)
    } else {
        column_lines(fields, rs, pk_cols).push("PRIMARY KEY ("@ + join(pk_cols, ", "@) + ")"@)
    }
}

/// One `CREATE INDEX` for the secondary-key field `f`.
pub open spec fn index_line(sql_table: Seq<char>, f: Seq<char>) -> Seq<char> {
    "\nCREATE INDEX idx_"@ + sql_table + "_"@ + snake_case(f) + " ON "@ + sql_table + " ("@
        + snake_case(f) + ");"@
}

/// An `up.sql`: the `CREATE TABLE` and an index per secondary key.
pub open spec fn up_text(sql_table: Seq<char>, body: Seq<Seq<char>>, sks: Seq<Seq<char>>) -> Seq<
    char,
> {
    "CREATE TABLE "@ + sql_table + " (\n    "@ + join(body, ",\n    "@) + "\n);"@ + concat(
        sks.map_values(|f: Seq<char>| index_line(sql_table, f)),
    ) + "\n"@
}

/// The directory of the `i`-th table's migration: a zero-padded sequence number.
pub open spec fn migration_dir(i: int, sql_table: Seq<char>) -> Seq<char> {
    "migrations/"@ + pad4((i + 1) as nat) + "_create_"@ + sql_table
}

/// The `up.sql` and `down.sql` of the `i`-th table.
pub open spec fn migration_pair(i: int, t: TableDefV, config: ConfigV) -> Result<
    Seq<GeneratedFileV>,
    GenErrorV,
> {
    if t.primary_key.len() == 0 {
        Err(no_pk(t, KeyedGenerator::Migrations))
    } else {
        match resolve_all(t, config) {
            Err(e) => Err(e),
            Ok(rs) => {
                let dir = migration_dir(i, t.sql_table);
                let pk_cols = pk_columns(t.primary_key);
                Ok(
                    seq![
                        GeneratedFileV {
                            path: dir + "/up.sql"@,
                            contents: up_text(
                                t.sql_table,
                                table_body(t.fields, rs, pk_cols),
                                t.secondary_keys,
                            ),
                        },
                        GeneratedFileV {
                            path: dir + "/down.sql"@,
                            contents: "DROP TABLE "@ + t.sql_table + ";\n"@,
                        },
                    ],
                )
            },
        }
    }
}

/// The files of each group, in order.
pub open spec fn flatten_files(groups: Seq<Seq<GeneratedFileV>>) -> Seq<GeneratedFileV>
    decreases groups.len(),
{
    if groups.len() == 0 {
        Seq::empty()
    } else {
        flatten_files(groups.drop_last()) + groups.last()
    }
}

/// The migration pairs of the tables, in order.
pub open spec fn migration_groups(tables: Seq<TableDefV>, config: ConfigV) -> Result<
    Seq<Seq<GeneratedFileV>>,
    GenErrorV,
> {
    all_ok(Seq::new(tables.len(), |i: int| i), |i: int| migration_pair(i, tables[i], config))
}

/// What `generate_migrations` returns.
pub open spec fn spec_generate_migrations(tables: Seq<TableDefV>, config: ConfigV) -> Result<
    Seq<GeneratedFileV>,
    GenErrorV,
> {
    match migration_groups(tables, config) {
        Err(e) => Err(e),
        Ok(groups) => Ok(flatten_files(groups)),
    }
}

/// The column lines of a `CREATE TABLE`.
fn column_lines_of(table: &TableDef, rs: &Vec<ResolvedType>, pk_cols: &Vec<String>) -> (r: Vec<
    String,
>)
    requires
        rs.len() == table.fields.len(),
    ensures
        views(r@) == column_lines(table@.fields, resolved_views(rs@), views(pk_cols@)),
{
    let ghost fv = table@.fields;
    let single_pk = pk_cols.len() == 1;
    let mut lines: Vec<String> = Vec::new();
    let mut i: usize = 0;
    assert(resolved_views(rs@).take(0) =~= Seq::<ResolvedTypeV>::empty());
    assert(views(lines@) =~= Seq::<Seq<char>>::empty());
    while i < rs.len()
        invariant
            i <= rs.len(),
            rs.len() == table.fields.len(),
            fv == table@.fields,
            single_pk == (pk_cols.len() == 1),
            views(lines@) == column_lines(fv, resolved_views(rs@).take(i as int), views(pk_cols@)),
        decreases rs.len() - i,
    {
        let ghost prefix = resolved_views(rs@).take(i + 1);
        assert(prefix.drop_last() =~= resolved_views(rs@).take(i as int));
        assert(prefix.last() == rs@[i as int]@);
        assert(fv[i as int] == table.fields@[i as int]@);
        let field = &table.fields[i];
        let r = &rs[i];
        // A single-column key is declared inline; it already implies NOT NULL.
        let inline_pk = single_pk && str_eq(pk_cols[0].as_str(), r.column_name.as_str());
        let mut line = cat3(r.column_name.as_str(), " ", r.pg_type.as_str());
        if !field.optional && !inline_pk {
            line.append(" NOT NULL");
        }
        if let Some(default) = &field.default {
            line.append(" DEFAULT ");
            line.append(default.as_str());
        }
        if inline_pk {
            line.append(" PRIMARY KEY");
        }
        assert(line@ =~= body_line(fv[i as int], rs@[i as int]@, is_inline_pk(views(pk_cols@), rs@[i as int]@.column_name)));
        let ghost before = lines@;
        lines.push(line);
        assert(views(lines@) =~= views(before).push(line@));
        i += 1;
    }
    assert(resolved_views(rs@).take(rs.len() as int) =~= resolved_views(rs@));
    lines
}

/// The `CREATE INDEX` lines.
fn index_lines(sql_table: &str, sks: &Vec<String>) -> (r: String)
    ensures
        r@ == concat(views(sks@).map_values(|f: Seq<char>| index_line(sql_table@, f))),
{
    let ghost g = |f: Seq<char>| index_line(sql_table@, f);
    let mut out = String::new();
    let mut i: usize = 0;
    while i < sks.len()
        invariant
            i <= sks.len(),
            g == (|f: Seq<char>| index_line(sql_table@, f)),
            out@ == concat(views(sks@).take(i as int).map_values(g)),
        decreases sks.len() - i,
    {
        let column = to_snake_case(sks[i].as_str());
        out.append("\nCREATE INDEX idx_");
        out.append(sql_table);
        out.append("_");
        out.append(column.as_str());
        out.append(" ON ");
        out.append(sql_table);
        out.append(" (");
        out.append(column.as_str());
        out.append(");");
        assert(views(sks@).take(i + 1).map_values(g).drop_last() =~= views(sks@).take(
            i as int,
        ).map_values(g));
        i += 1;
    }
    assert(views(sks@).take(sks.len() as int) =~= views(sks@));
    out
}

/// The `up.sql` and `down.sql` of the `i`-th table.
fn migration_pair_of(i: usize, table: &TableDef, config: &Config) -> (r: Result<
    Vec<GeneratedFile>,
    GenError,
>)
    requires
        i < usize::MAX,
    ensures
        match r {
            Ok(fs) => migration_pair(i as int, table@, config@) == Ok::<
                Seq<GeneratedFileV>,
                GenErrorV,
            >(file_views(fs@)),
            Err(e) => migration_pair(i as int, table@, config@) == Err::<
                Seq<GeneratedFileV>,
                GenErrorV,
            >(e@),
        },
{
    if table.primary_key.len() == 0 {
        return Err(
            GenError::NoPrimaryKey { table: table.name.clone(), generator: KeyedGenerator::Migrations },
        );
    }
    let rs = match resolve_fields(table, config) {
        Ok(rs) => rs,
        Err(e) => return Err(e),
    };
    proof {
        lemma_all_ok_len(table@.fields, |f: FieldDefV| type_err(spec_resolve(f, table@.types, config@)));
    }
    let pk_cols = snake_all(&table.primary_key);
    let mut body = column_lines_of(table, &rs, &pk_cols);
    // Composite keys go in a table-level constraint instead.
    if pk_cols.len() != 1 {
        let keys = join_str(&pk_cols, ", ");
        let line = cat3("PRIMARY KEY (", keys.as_str(), ")");
        let ghost before = body@;
        body.push(line);
        assert(views(body@) =~= views(before).push(line@));
    }
    let sql = table.sql_table.as_str();
    let mut up = cat3("CREATE TABLE ", sql, " (\n    ");
    let joined = join_str(&body, ",\n    ");
    up.append(joined.as_str());
    up.append("\n);");
    let indexes = index_lines(sql, &table.secondary_keys);
    up.append(indexes.as_str());
    up.append("\n");
    let number = pad4_str(i + 1);
    let mut dir = cat3("migrations/", number.as_str(), "_create_");
    dir.append(sql);
    let up_path = cat3(dir.as_str(), "/up.sql", "");
    let down_path = cat3(dir.as_str(), "/down.sql", "");
    let down = cat3("DROP TABLE ", sql, ";\n");
    proof {
        reveal_strlit("");
    }
    let mut out: Vec<GeneratedFile> = Vec::new();
    out.push(GeneratedFile { path: up_path, contents: up });
    out.push(GeneratedFile { path: down_path, contents: down });
    assert(file_views(out@) =~= migration_pair(i as int, table@, config@)->Ok_0);
    Ok(out)
}

/// Generate the SQL migration pair for a set of tables: a `CREATE TABLE`
/// (`up.sql`) and `DROP TABLE` (`down.sql`) per table under
/// `migrations/<NNNN>_create_<table>/`, `NNNN` the table's zero-padded position.
pub fn generate_migrations(tables: &[TableDef], config: &Config) -> (r: Result<
    Vec<GeneratedFile>,
    GenError,
>)
    ensures
        match r {
            Ok(files) => spec_generate_migrations(table_views(tables@), config@) == Ok::<
                Seq<GeneratedFileV>,
                GenErrorV,
            >(file_views(files@)),
            Err(e) => spec_generate_migrations(table_views(tables@), config@) == Err::<
                Seq<GeneratedFileV>,
                GenErrorV,
            >(e@),
        },
{
    let ghost tv = table_views(tables@);
    let ghost idx = Seq::new(tv.len(), |i: int| i);
    let ghost g = |i: int| migration_pair(i, tv[i], config@);
    let ghost mut groups: Seq<Seq<GeneratedFileV>> = Seq::empty();
    let mut files: Vec<GeneratedFile> = Vec::new();
    let mut i: usize = 0;
    assert(idx.take(0) =~= Seq::<int>::empty());
    assert(file_views(files@) =~= Seq::<GeneratedFileV>::empty());
    while i < tables.len()
        invariant
            i <= tables.len(),
            tv == table_views(tables@),
            idx == Seq::new(tv.len(), |i: int| i),
            g == (|i: int| migration_pair(i, tv[i], config@)),
            all_ok(idx.take(i as int), g) == Ok::<Seq<Seq<GeneratedFileV>>, GenErrorV>(groups),
            file_views(files@) == flatten_files(groups),
        decreases tables.len() - i,
    {
        assert(idx.take(i + 1).drop_last() =~= idx.take(i as int));
        assert(idx.take(i + 1).last() == i as int);
        assert(tv[i as int] == tables@[i as int]@);
        match migration_pair_of(i, &tables[i], config) {
            Ok(pair) => {
                let ghost before = files@;
                let ghost pv = file_views(pair@);
                let mut pair = pair;
                files.append(&mut pair);
                assert(file_views(files@) =~= file_views(before) + pv);
                proof {
                    assert(groups.push(pv).drop_last() =~= groups);
                    groups = groups.push(pv);
                }
            },
            Err(e) => {
                proof {
                    lemma_all_ok_error_prefix(idx, i + 1, g);
                }
                return Err(e);
            },
        }
        i += 1;
    }
    assert(idx.take(tables.len() as int) =~= idx);
    Ok(files)
}

// ---------- crate scaffold ----------

/// The dependency table of the generated crate: `(name, fragment)` entries.
pub type DepsV = Seq<(Seq<char>, Seq<char>)>;

/// How many leading entries of `m` are named below `k` (the place of `k` in
/// a sorted table).
pub open spec fn dep_pos(m: DepsV, k: Seq<char>) -> int
    decreases m.len(),
{
    if m.len() == 0 || !seq_lt(m[0].0, k) {
        0
    } else {
        1 + dep_pos(m.drop_first(), k)
    }
}

/// `m` with `k = v` put in its sorted place; an entry already named `k` is
/// replaced when `overwrite` (`BTreeMap::insert`) and kept otherwise
/// (`entry(k).or_insert(v)`).
pub open spec fn dep_put(m: DepsV, k: Seq<char>, v: Seq<char>, overwrite: bool) -> DepsV {
    let i = dep_pos(m, k);
    if i < m.len() && m[i].0 == k {
        if overwrite {
            m.update(i, (k, v))
        } else {
            m
        }
    } else {
        m.insert(i, (k, v))
    }
}

/// The project's base dependencies, in a sorted table (later entries under a
/// name replace earlier ones).
pub open spec fn base_deps(deps: DepsV) -> DepsV
    decreases deps.len(),
{
    if deps.len() == 0 {
        Seq::empty()
    } else {
        dep_put(base_deps(deps.drop_last()), deps.last().0, deps.last().1, true)
    }
}

/// The `diesel` dependency injected when the project declares none.
pub open spec fn default_diesel() -> Seq<char> {
    "{ version = \"2\", features = [\"postgres_backend\"] }"@
}

/// A `name = fragment` crate line as a trimmed dependency entry.
pub open spec fn crate_line_dep(line: Seq<char>) -> Option<(Seq<char>, Seq<char>)> {
    match split_once(line, '=') {
        Some((n, f)) => Some((trim(n), trim(f))),
        None => None,
    }
}

/// The config type whose crate a field of type `spec` needs: the element
/// type of a list type `[T]`, else the type itself.
pub open spec fn crate_type(spec: Seq<char>) -> Seq<char> {
    match list_elem(spec) {
        Some(e) => e,
        None => spec,
    }
}

/// The crate line the config gives for the type of field `f`, as a dependency entry.
pub open spec fn field_crate(config: ConfigV, f: FieldDefV) -> Option<(Seq<char>, Seq<char>)> {
    match lookup_type(config.types, crate_type(f.spec_type)) {
        Some(m) => match m.krate {
            Some(line) => crate_line_dep(line),
            None => None,
        },
        None => None,
    }
}

/// `m` with the crate of each field's type added, unless already present.
pub open spec fn add_crates(m: DepsV, fields: Seq<FieldDefV>, config: ConfigV) -> DepsV
    decreases fields.len(),
{
    if fields.len() == 0 {
        m
    } else {
        let acc = add_crates(m, fields.drop_last(), config);
        match field_crate(config, fields.last()) {
            Some((n, f)) => dep_put(acc, n, f, false),
            None => acc,
        }
    }
}

/// Every field of the tables, in table order.
pub open spec fn all_fields(tables: Seq<TableDefV>) -> Seq<FieldDefV>
    decreases tables.len(),
{
    if tables.len() == 0 {
        Seq::empty()
    } else {
        all_fields(tables.drop_last()) + tables.last().fields
    }
}

/// The dependencies of the generated crate: the project's base table, a
/// default `diesel`, and the crate of each used config type (base wins).
pub open spec fn spec_deps(tables: Seq<TableDefV>, config: ConfigV) -> DepsV {
    add_crates(
        dep_put(base_deps(config.dependencies), "diesel"@, default_diesel(), false),
        all_fields(tables),
        config,
    )
}

/// One `name = fragment` line.
pub open spec fn dep_line(e: (Seq<char>, Seq<char>)) -> Seq<char> {
    e.0 + " = "@ + e.1
}

/// The generated `Cargo.toml`.
pub open spec fn cargo_text(crate_name: Seq<char>, deps: DepsV) -> Seq<char> {
    "[package]\nname = \""@ + crate_name
        + "\"\nversion = \"0.1.0\"\nedition = \"2021\"\n\n[dependencies]\n"@ + join(
        deps.map_values(|e: (Seq<char>, Seq<char>)| dep_line(e)),
        "\n"@,
    ) + "\n"@
}

/// What `generate_cargo_toml` returns.
pub open spec fn spec_generate_cargo_toml(
    tables: Seq<TableDefV>,
    config: ConfigV,
    crate_name: Seq<char>,
) -> GeneratedFileV {
    GeneratedFileV { path: "Cargo.toml"@, contents: cargo_text(crate_name, spec_deps(tables, config)) }
}

/// The views of a dependency table.
pub open spec fn dep_views(v: Seq<(String, String)>) -> DepsV {
    v.map_values(|e: (String, String)| (e.0@, e.1@))
}

/// `dep_pos` is a position in `m`.
pub proof fn lemma_dep_pos_bounds(m: DepsV, k: Seq<char>)
    ensures
        0 <= dep_pos(m, k) <= m.len(),
    decreases m.len(),
{
    if m.len() > 0 && seq_lt(m[0].0, k) {
        lemma_dep_pos_bounds(m.drop_first(), k);
    }
}

/// Put `k = v` in the sorted dependency table `m`.
fn dep_put_exec(m: &mut Vec<(String, String)>, k: String, v: String, overwrite: bool)
    ensures
        dep_views(final(m)@) == dep_put(dep_views(old(m)@), k@, v@, overwrite),
{
    let ghost mv = dep_views(m@);
    let n = m.len();
    let mut i: usize = 0;
    assert(mv.skip(0) =~= mv);
    while i < n && str_lt(m[i].0.as_str(), k.as_str())
        invariant
            i <= n,
            n == m.len(),
            mv == dep_views(m@),
            dep_pos(mv, k@) == i + dep_pos(mv.skip(i as int), k@),
        decreases n - i,
    {
        assert(mv.skip(i as int)[0] == mv[i as int]);
        assert(mv.skip(i as int).drop_first() =~= mv.skip(i + 1));
        i += 1;
    }
    assert(i < n ==> mv.skip(i as int)[0] == mv[i as int]);
    assert(dep_pos(mv, k@) == i);
    if i < n && str_eq(m[i].0.as_str(), k.as_str()) {
        if overwrite {
            m.set(i, (k, v));
            assert(dep_views(m@) =~= mv.update(i as int, (k@, v@)));
        }
    } else {
        m.insert(i, (k, v));
        assert(dep_views(m@) =~= mv.insert(i as int, (k@, v@)));
    }
}

/// The crate line the config gives for `field`'s type, as a trimmed entry.
fn field_crate_of(config: &Config, field: &crate::ir::FieldDef) -> (r: Option<(String, String)>)
    ensures
        match r {
            Some(e) => field_crate(config@, field@) == Some((e.0@, e.1@)),
            None => field_crate(config@, field@) is None,
        },
{
    let ty = match list_elem_str(field.spec_type.as_str()) {
        Some(e) => e,
        None => field.spec_type.clone(),
    };
    match config.type_mapping(ty.as_str()) {
        Some(m) => match &m.krate {
            // A crate line is `name = <fragment>`.
            Some(line) => match split_once_char(line.as_str(), '=') {
                Some((n, f)) => Some((trim_str(n.as_str()), trim_str(f.as_str()))),
                None => None,
            },
            None => None,
        },
        None => None,
    }
}

/// Generate the output crate's `Cargo.toml`. `[dependencies]` is the
/// project's base table, a default `diesel` when the project declares none,
/// and the `crate` line of each config type a field uses (base wins on a
/// name collision), sorted by name.
#[verifier::loop_isolation(false)]
#[verifier::spinoff_prover]
pub fn generate_cargo_toml(tables: &[TableDef], config: &Config, crate_name: &str) -> (r:
    GeneratedFile)
    ensures
        r@ == spec_generate_cargo_toml(table_views(tables@), config@, crate_name@),
{
    let ghost tv = table_views(tables@);
    let ghost cv = config@;
    let mut deps: Vec<(String, String)> = Vec::new();
    let mut i: usize = 0;
    let base = &config.cargo.dependencies;
    assert(cv.dependencies.take(0) =~= Seq::<(Seq<char>, Seq<char>)>::empty());
    assert(dep_views(deps@) =~= Seq::<(Seq<char>, Seq<char>)>::empty());
    while i < base.len()
        invariant
            i <= base.len(),
            cv.dependencies == dep_views(base@),
            dep_views(deps@) == base_deps(cv.dependencies.take(i as int)),
        decreases base.len() - i,
    {
        assert(cv.dependencies.take(i + 1).drop_last() =~= cv.dependencies.take(i as int));
        assert(cv.dependencies.take(i + 1).last() == (base@[i as int].0@, base@[i as int].1@));
        dep_put_exec(&mut deps, base[i].0.clone(), base[i].1.clone(), true);
        i += 1;
    }
    assert(cv.dependencies.take(base.len() as int) =~= cv.dependencies);
    // diesel is the one non-negotiable dependency: default it when absent.
    dep_put_exec(
        &mut deps,
        String::from_str("diesel"),
        String::from_str("{ version = \"2\", features = [\"postgres_backend\"] }"),
        false,
    );
    let ghost start = dep_views(deps@);
    let ghost mut done: Seq<FieldDefV> = Seq::empty();
    let mut t: usize = 0;
    assert(tv.take(0) =~= Seq::<TableDefV>::empty());
    while t < tables.len()
        invariant
            t <= tables.len(),
            tv == table_views(tables@),
            done == all_fields(tv.take(t as int)),
            dep_views(deps@) == add_crates(start, done, cv),
        decreases tables.len() - t,
    {
        let fields = &tables[t].fields;
        let ghost fs = tv[t as int].fields;
        assert(fs == fields@.map_values(|f: crate::ir::FieldDef| f@));
        let mut j: usize = 0;
        assert(done + fs.take(0) =~= done);
        while j < fields.len()
            invariant
                j <= fields.len(),
                fs == fields@.map_values(|f: crate::ir::FieldDef| f@),
                dep_views(deps@) == add_crates(start, done + fs.take(j as int), cv),
            decreases fields.len() - j,
        {
            let ghost seen = done + fs.take(j as int);
            assert((done + fs.take(j + 1)).drop_last() =~= seen);
            assert((done + fs.take(j + 1)).last() == fields@[j as int]@);
            if let Some((n, f)) = field_crate_of(config, &fields[j]) {
                dep_put_exec(&mut deps, n, f, false);
            }
            j += 1;
        }
        assert(fs.take(fields.len() as int) =~= fs);
        assert(tv.take(t + 1).drop_last() =~= tv.take(t as int));
        proof {
            done = done + fs;
        }
        t += 1;
    }
    assert(tv.take(tables.len() as int) =~= tv);
    let mut lines: Vec<String> = Vec::new();
    let mut k: usize = 0;
    while k < deps.len()
        invariant
            k <= deps.len(),
            views(lines@) == dep_views(deps@).take(k as int).map_values(
                |e: (Seq<char>, Seq<char>)| dep_line(e),
            ),
        decreases deps.len() - k,
    {
        let line = cat3(deps[k].0.as_str(), " = ", deps[k].1.as_str());
        let ghost before = lines@;
        lines.push(line);
        assert(views(lines@) =~= views(before).push(line@));
        assert(dep_views(deps@).take(k + 1).map_values(|e: (Seq<char>, Seq<char>)| dep_line(e))
            =~= dep_views(deps@).take(k as int).map_values(
            |e: (Seq<char>, Seq<char>)| dep_line(e),
        ).push(dep_line(dep_views(deps@)[k as int])));
        k += 1;
    }
    assert(dep_views(deps@).take(deps.len() as int) =~= dep_views(deps@));
    let dep_lines = join_str(&lines, "\n");
    let mut contents = cat3("[package]\nname = \"", crate_name, "\"\nversion = \"0.1.0\"\nedition = \"2021\"\n\n[dependencies]\n");
    contents.append(dep_lines.as_str());
    contents.append("\n");
    GeneratedFile { path: String::from_str("Cargo.toml"), contents }
}

/// Some table declares a custom type.
pub open spec fn any_types(tables: Seq<TableDefV>) -> bool {
    exists|i: int| 0 <= i < tables.len() && tables[i].types.len() > 0
}

/// The module declarations of the generated `src/lib.rs`: `types` only when
/// some table declares a custom type.
pub open spec fn lib_modules(tables: Seq<TableDefV>) -> Seq<Seq<char>> {
    if any_types(tables) {
        seq!["pub mod schema;"@, "pub mod models;"@, "pub mod types;"@]
    } else {
        seq!["pub mod schema;"@, "pub mod models;"@]
    }
}

/// What `generate_lib_rs` returns: the module roots, one per line.
pub open spec fn spec_generate_lib_rs(tables: Seq<TableDefV>) -> GeneratedFileV {
    GeneratedFileV { path: "src/lib.rs"@, contents: join(lib_modules(tables), "\n"@) + "\n"@ }
}

/// Generate the output crate's `src/lib.rs`: the module roots; `types`
/// exists only when at least one enum was generated.
pub fn generate_lib_rs(tables: &[TableDef]) -> (r: GeneratedFile)
    ensures
        r@ == spec_generate_lib_rs(table_views(tables@)),
{
    let ghost tv = table_views(tables@);
    let mut any = false;
    let mut i: usize = 0;
    while i < tables.len()
        invariant
            i <= tables.len(),
            tv == table_views(tables@),
            any == exists|k: int| 0 <= k < i && tv[k].types.len() > 0,
        decreases tables.len() - i,
    {
        assert(tv[i as int].types.len() == tables@[i as int].types.len());
        if tables[i].types.len() > 0 {
            any = true;
        }
        i += 1;
    }
    let mut mods: Vec<String> = Vec::new();
    mods.push(String::from_str("pub mod schema;"));
    mods.push(String::from_str("pub mod models;"));
    if any {
        mods.push(String::from_str("pub mod types;"));
    }
    let mut contents = join_str(&mods, "\n");
    contents.append("\n");
    let r = GeneratedFile { path: String::from_str("src/lib.rs"), contents };
    assert(views(mods@) =~= lib_modules(tv));
    r
}

// ---------- laws ----------

/// One failing input makes the whole fold fail.
pub proof fn lemma_all_ok_err_at<A, B>(xs: Seq<A>, f: spec_fn(A) -> Result<B, GenErrorV>, k: int)
    requires
        0 <= k < xs.len(),
        f(xs[k]) is Err,
    ensures
        all_ok(xs, f) is Err,
    decreases xs.len(),
{
    if k < xs.len() - 1 {
        lemma_all_ok_err_at(xs.drop_last(), f, k);
    }
}

/// A table without a primary key makes the schema, model and migration
/// generators, and so the whole crate, fail (`diesel::table!` needs a key).
pub proof fn law_missing_primary_key_fails(tables: Seq<TableDefV>, config: ConfigV, k: int)
    requires
        0 <= k < tables.len(),
        tables[k].primary_key.len() == 0,
    ensures
        spec_generate_schema(tables, config) is Err,
        spec_generate_models(tables, config) is Err,
        spec_generate_migrations(tables, config) is Err,
{
    lemma_all_ok_err_at(tables, |t: TableDefV| schema_file(t, config), k);
    lemma_all_ok_err_at(tables, |t: TableDefV| model_file(t, config), k);
    let idx = Seq::new(tables.len(), |i: int| i);
    lemma_all_ok_err_at(idx, |i: int| migration_pair(i, tables[i], config), k);
}

/// The schema is one file per table, in table order, at
/// `src/schema/<table>.rs`, then `src/schema/mod.rs` declaring every table;
/// the models follow the same layout under `src/models/`.
pub proof fn law_schema_and_model_layout(tables: Seq<TableDefV>, config: ConfigV)
    ensures
        spec_generate_schema(tables, config) matches Ok(files) ==> {
            &&& files.len() == tables.len() + 1
            &&& forall|k: int|
                0 <= k < tables.len() ==> #[trigger] files[k].path == "src/schema/"@
                    + tables[k].sql_table + ".rs"@
            &&& files[tables.len() as int] == GeneratedFileV {
                path: "src/schema/mod.rs"@,
                contents: schema_mod_text(sql_tables(tables)),
            }
        },
        spec_generate_models(tables, config) matches Ok(files) ==> {
            &&& files.len() == tables.len() + 1
            &&& forall|k: int|
                0 <= k < tables.len() ==> #[trigger] files[k].path == "src/models/"@
                    + tables[k].sql_table + ".rs"@
            &&& files[tables.len() as int] == GeneratedFileV {
                path: "src/models/mod.rs"@,
                contents: mod_list_text(sql_tables(tables)),
            }
        },
{
    let fs = |t: TableDefV| schema_file(t, config);
    let fm = |t: TableDefV| model_file(t, config);
    lemma_all_ok_len(tables, fs);
    lemma_all_ok_len(tables, fm);
    if all_ok(tables, fs) is Ok {
        assert forall|k: int| 0 <= k < tables.len() implies #[trigger] all_ok(tables, fs)->Ok_0[k].path
            == "src/schema/"@ + tables[k].sql_table + ".rs"@ by {
            lemma_all_ok_index(tables, fs, k);
        }
    }
    if all_ok(tables, fm) is Ok {
        assert forall|k: int| 0 <= k < tables.len() implies #[trigger] all_ok(tables, fm)->Ok_0[k].path
            == "src/models/"@ + tables[k].sql_table + ".rs"@ by {
            lemma_all_ok_index(tables, fm, k);
        }
    }
}

/// The field at position `k` is kept in the insert struct.
pub open spec fn kept_at(fields: Seq<FieldDefV>, rs: Seq<ResolvedTypeV>, x: ResolvedTypeV) -> bool {
    exists|k: int| 0 <= k < rs.len() && rs[k] == x && !is_timestamp(fields[k].name)
}

/// The insert struct holds exactly the resolved fields whose field is not an
/// injected timestamp: every one of them, and nothing else.
pub proof fn law_insert_struct_excludes_timestamps(fields: Seq<FieldDefV>, rs: Seq<ResolvedTypeV>)
    requires
        fields.len() == rs.len(),
    ensures
        forall|x: ResolvedTypeV|
            #[trigger] insert_fields(fields, rs).contains(x) ==> kept_at(fields, rs, x),
        forall|k: int|
            0 <= k < rs.len() && !is_timestamp(fields[k].name) ==> insert_fields(
                fields,
                rs,
            ).contains(#[trigger] rs[k]),
    decreases rs.len(),
{
    if rs.len() > 0 {
        let prev = rs.drop_last();
        let fprev = fields.drop_last();
        law_insert_struct_excludes_timestamps(fprev, prev);
        assert(insert_fields(fields, prev) == insert_fields(fprev, prev)) by {
            lemma_insert_fields_prefix(fields, fprev, prev);
        }
        let acc = insert_fields(fields, prev);
        let all = insert_fields(fields, rs);
        assert forall|x: ResolvedTypeV| #[trigger] all.contains(x) implies kept_at(fields, rs, x) by {
            if acc.contains(x) {
                let k = choose|k: int| 0 <= k < prev.len() && prev[k] == x && !is_timestamp(fprev[k].name);
                assert(rs[k] == prev[k] && fields[k] == fprev[k]);
            } else {
                let j = choose|j: int| 0 <= j < all.len() && all[j] == x;
                assert(all == acc.push(rs.last()));
                assert(j == acc.len());
                assert(rs[rs.len() - 1] == rs.last());
            }
        }
        assert forall|k: int| 0 <= k < rs.len() && !is_timestamp(fields[k].name) implies all.contains(
            #[trigger] rs[k],
        ) by {
            if k < rs.len() - 1 {
                assert(prev[k] == rs[k] && fprev[k] == fields[k]);
                assert(acc.contains(prev[k]));
                let j = choose|j: int| 0 <= j < acc.len() && acc[j] == prev[k];
                assert(all[j] == acc[j]);
            } else {
                assert(all == acc.push(rs.last()));
                assert(all[acc.len() as int] == rs[k]);
            }
        }
    }
}

/// `insert_fields` reads only the fields at the resolved positions.
pub proof fn lemma_insert_fields_prefix(
    fields: Seq<FieldDefV>,
    other: Seq<FieldDefV>,
    rs: Seq<ResolvedTypeV>,
)
    requires
        rs.len() <= fields.len(),
        rs.len() <= other.len(),
        forall|k: int| 0 <= k < rs.len() ==> fields[k] == other[k],
    ensures
        insert_fields(fields, rs) == insert_fields(other, rs),
    decreases rs.len(),
{
    if rs.len() > 0 {
        lemma_insert_fields_prefix(fields, other, rs.drop_last());
    }
}

/// No entry of `s` occurs twice.
pub open spec fn no_repeats(s: Seq<Seq<char>>) -> bool {
    forall|i: int, j: int| 0 <= i < j < s.len() ==> s[i] != s[j]
}

/// Adding imports keeps a repeat-free list repeat-free and keeps what it had,
/// and every resolved import ends up in the list.
pub proof fn lemma_add_imports(imports: Seq<Seq<char>>, rs: Seq<ResolvedTypeV>)
    requires
        no_repeats(imports),
    ensures
        no_repeats(add_imports(imports, rs)),
        forall|p: Seq<char>| imports.contains(p) ==> add_imports(imports, rs).contains(p),
        forall|k: int|
            0 <= k < rs.len() && (#[trigger] rs[k]).import is Some ==> add_imports(
                imports,
                rs,
            ).contains(rs[k].import->0),
    decreases rs.len(),
{
    if rs.len() > 0 {
        let prev = rs.drop_last();
        lemma_add_imports(imports, prev);
        let acc = add_imports(imports, prev);
        let all = add_imports(imports, rs);
        if let Some(p) = rs.last().import {
            if !acc.contains(p) {
                assert forall|q: Seq<char>| acc.contains(q) implies all.contains(q) by {
                    let j = choose|j: int| 0 <= j < acc.len() && acc[j] == q;
                    assert(all[j] == acc[j]);
                }
                assert(all[acc.len() as int] == p);
            }
        }
        assert forall|k: int| 0 <= k < rs.len() && (#[trigger] rs[k]).import is Some implies all.contains(
            rs[k].import->0,
        ) by {
            if k < rs.len() - 1 {
                assert(prev[k] == rs[k]);
            } else {
                assert(rs[k] == rs.last());
            }
        }
    }
}

/// A model file imports nothing twice, starting with the diesel prelude and
/// its schema module, and imports every path a field's type needs.
pub proof fn law_model_imports(sql_table: Seq<char>, rs: Seq<ResolvedTypeV>)
    ensures
        no_repeats(add_imports(initial_imports(sql_table), rs)),
        add_imports(initial_imports(sql_table), rs).contains("diesel::prelude::*"@),
        add_imports(initial_imports(sql_table), rs).contains("crate::schema::"@ + sql_table),
        forall|k: int|
            0 <= k < rs.len() && (#[trigger] rs[k]).import is Some ==> add_imports(
                initial_imports(sql_table),
                rs,
            ).contains(rs[k].import->0),
{
    let init = initial_imports(sql_table);
    reveal_strlit("diesel::prelude::*");
    reveal_strlit("crate::schema::");
    assert(init[0][0] != init[1][0]);
    assert(init[0] == "diesel::prelude::*"@);
    assert(init[1] == "crate::schema::"@ + sql_table);
    assert(init.contains(init[0]));
    assert(init.contains(init[1]));
    lemma_add_imports(init, rs);
}

/// Every declared type of a table is among `all_types`.
pub proof fn lemma_all_types_contains(tables: Seq<TableDefV>, k: int, j: int)
    requires
        0 <= k < tables.len(),
        0 <= j < tables[k].types.len(),
    ensures
        all_types(tables).contains(tables[k].types[j]),
    decreases tables.len(),
{
    let prev = all_types(tables.drop_last());
    if k == tables.len() - 1 {
        assert(all_types(tables)[prev.len() + j] == tables[k].types[j]);
    } else {
        lemma_all_types_contains(tables.drop_last(), k, j);
        let i = choose|i: int| 0 <= i < prev.len() && prev[i] == tables[k].types[j];
        assert(all_types(tables)[i] == prev[i]);
    }
}

/// `all_types` is empty exactly when no table declares a type.
pub proof fn lemma_all_types_empty(tables: Seq<TableDefV>)
    ensures
        (all_types(tables).len() > 0) == any_types(tables),
    decreases tables.len(),
{
    if tables.len() > 0 {
        let prev = tables.drop_last();
        lemma_all_types_empty(prev);
        if any_types(prev) {
            let i = choose|i: int| 0 <= i < prev.len() && prev[i].types.len() > 0;
            assert(tables[i] == prev[i]);
        }
        if any_types(tables) {
            let i = choose|i: int| 0 <= i < tables.len() && tables[i].types.len() > 0;
            if i < tables.len() - 1 {
                assert(tables[i] == prev[i]);
            }
        }
    }
}

/// `dedup` keeps exactly the elements of `s`, each once.
pub proof fn lemma_dedup(s: Seq<Seq<char>>)
    ensures
        no_repeats(dedup(s)),
        forall|x: Seq<char>| dedup(s).contains(x) == s.contains(x),
        (dedup(s).len() > 0) == (s.len() > 0),
    decreases s.len(),
{
    if s.len() > 0 {
        let prev = s.drop_last();
        lemma_dedup(prev);
        let acc = dedup(prev);
        let all = dedup(s);
        assert forall|x: Seq<char>| all.contains(x) == s.contains(x) by {
            if all.contains(x) {
                let j = choose|j: int| 0 <= j < all.len() && all[j] == x;
                if j < acc.len() {
                    assert(acc[j] == x);
                    assert(acc.contains(x));
                    assert(prev.contains(x));
                    let i = choose|i: int| 0 <= i < prev.len() && prev[i] == x;
                    assert(s[i] == prev[i]);
                } else {
                    assert(s[s.len() - 1] == x);
                }
            }
            if s.contains(x) {
                let i = choose|i: int| 0 <= i < s.len() && s[i] == x;
                if i < s.len() - 1 {
                    assert(prev[i] == x);
                    assert(prev.contains(x));
                    let j = choose|j: int| 0 <= j < acc.len() && acc[j] == x;
                    assert(all[j] == acc[j]);
                } else if acc.contains(x) {
                    let j = choose|j: int| 0 <= j < acc.len() && acc[j] == x;
                    assert(all[j] == acc[j]);
                } else {
                    assert(all[acc.len() as int] == x);
                }
            }
        }
        if acc.len() > 0 {
            assert(all[0] == acc[0]);
        }
    }
}

/// A `types/mod.rs`, and type files at all, are generated exactly when some
/// table declares a custom type; this is also exactly when `src/lib.rs`
/// declares `pub mod types;`. The module list names each module once.
pub proof fn law_types_module_iff_declared(tables: Seq<TableDefV>)
    ensures
        (spec_generate_types(tables).len() > 0) == any_types(tables),
        lib_modules(tables).contains("pub mod types;"@) == any_types(tables),
        no_repeats(dedup(all_types(tables).map_values(|ty: TypeDefV| enum_module(ty)))),
{
    let tys = all_types(tables);
    let mods = tys.map_values(|ty: TypeDefV| enum_module(ty));
    lemma_all_types_empty(tables);
    lemma_dedup(mods);
    reveal_strlit("pub mod schema;");
    reveal_strlit("pub mod models;");
    reveal_strlit("pub mod types;");
    let l = lib_modules(tables);
    if any_types(tables) {
        assert(l[2] == "pub mod types;"@);
    } else {
        assert("pub mod schema;"@[8] != "pub mod types;"@[8]);
        assert("pub mod models;"@[8] != "pub mod types;"@[8]);
        assert forall|i: int| 0 <= i < l.len() implies l[i] != "pub mod types;"@ by {
            assert(l[i][8] != "pub mod types;"@[8]);
        }
    }
}

/// On success, each table's schema file is its `diesel::table!` block: the
/// snake_case key columns, comma-joined, in the header, then one
/// `column -> DieselType,` line per field in field order, each line from that
/// field's own resolution.
pub proof fn law_schema_contents(tables: Seq<TableDefV>, config: ConfigV, k: int)
    requires
        0 <= k < tables.len(),
        spec_generate_schema(tables, config) is Ok,
    ensures
        ({
            let t = tables[k];
            let rs = resolve_all(t, config)->Ok_0;
            &&& resolve_all(t, config) is Ok
            &&& rs.len() == t.fields.len()
            &&& forall|j: int|
                0 <= j < rs.len() ==> spec_resolve(#[trigger] t.fields[j], t.types, config)
                    == Ok::<ResolvedTypeV, TypeErrorV>(rs[j])
            &&& spec_generate_schema(tables, config)->Ok_0[k].contents == schema_text(
                t.sql_table,
                join(pk_columns(t.primary_key), ", "@),
                rs,
            )
        }),
{
    let fs = |t: TableDefV| schema_file(t, config);
    lemma_all_ok_index(tables, fs, k);
    lemma_all_ok_len(tables, fs);
    assert(spec_generate_schema(tables, config)->Ok_0[k] == all_ok(tables, fs)->Ok_0[k]);
    let t = tables[k];
    let g = |f: FieldDefV| type_err(spec_resolve(f, t.types, config));
    lemma_all_ok_len(t.fields, g);
    assert forall|j: int| 0 <= j < t.fields.len() implies spec_resolve(#[trigger] t.fields[j], t.types, config)
        == Ok::<ResolvedTypeV, TypeErrorV>(resolve_all(t, config)->Ok_0[j]) by {
        lemma_all_ok_index(t.fields, g, j);
    }
}

/// The types files: one per declared enum of every table, in order, at
/// `src/types/<snake_case name>.rs`, then (when there is any) `src/types/mod.rs`
/// declaring each module once, in first-occurrence order.
pub proof fn law_types_layout(tables: Seq<TableDefV>)
    ensures
        ({
            let tys = all_types(tables);
            let files = spec_generate_types(tables);
            &&& files.len() == tys.len() + (if tys.len() == 0 { 0int } else { 1int })
            &&& forall|j: int|
                0 <= j < tys.len() ==> #[trigger] files[j].path == "src/types/"@ + snake_case(
                    tys[j].declared_name(),
                ) + ".rs"@
            &&& tys.len() > 0 ==> files[tys.len() as int] == GeneratedFileV {
                path: "src/types/mod.rs"@,
                contents: mod_list_text(dedup(tys.map_values(|t: TypeDefV| enum_module(t)))),
            }
        }),
{
    let tys = all_types(tables);
    let mods = tys.map_values(|t: TypeDefV| enum_module(t));
    lemma_dedup(mods);
    let files = spec_generate_types(tables);
    assert forall|j: int| 0 <= j < tys.len() implies #[trigger] files[j].path == "src/types/"@
        + snake_case(tys[j].declared_name()) + ".rs"@ by {
        let TypeDefV::Enum { name, variants } = tys[j];
    }
}

/// What resolving a field typed by a spec enum imports is where the types
/// generator puts that enum: `crate::types::<module>::<Name>`, with the file
/// `src/types/<module>.rs` among the generated ones and `<module>` listed in
/// `types/mod.rs`.
pub proof fn law_enum_import_matches_generated_module(
    tables: Seq<TableDefV>,
    k: int,
    j: int,
    f: FieldDefV,
    config: ConfigV,
)
    requires
        0 <= k < tables.len(),
        0 <= j < tables[k].types.len(),
        f.spec_type == tables[k].types[j].declared_name(),
    ensures
        ({
            let ty = tables[k].types[j];
            let module = enum_module(ty);
            &&& spec_resolve(f, tables[k].types, config) matches Ok(r)
            &&& r.import == Some("crate::types::"@ + module + "::"@ + f.spec_type)
            &&& spec_generate_types(tables).contains(type_file(ty))
            &&& type_file(ty).path == "src/types/"@ + module + ".rs"@
            &&& dedup(all_types(tables).map_values(|t: TypeDefV| enum_module(t))).contains(module)
        }),
{
    let ty = tables[k].types[j];
    assert(declares_enum(tables[k].types, f.spec_type));
    lemma_all_types_contains(tables, k, j);
    let tys = all_types(tables);
    let i = choose|i: int| 0 <= i < tys.len() && tys[i] == ty;
    let files = tys.map_values(|t: TypeDefV| type_file(t));
    let mods = tys.map_values(|t: TypeDefV| enum_module(t));
    assert(files[i] == type_file(ty));
    assert(mods[i] == enum_module(ty));
    lemma_dedup(mods);
    assert(mods.contains(enum_module(ty)));
    lemma_all_types_empty(tables);
    if dedup(mods).len() == 0 {
        assert(mods.len() > 0);
    } else {
        assert(spec_generate_types(tables)[i] == files[i]);
    }
}

/// Flattening pairs: the `k`-th pair sits at positions `2k` and `2k + 1`.
pub proof fn lemma_flatten_pairs(groups: Seq<Seq<GeneratedFileV>>)
    requires
        forall|k: int| 0 <= k < groups.len() ==> (#[trigger] groups[k]).len() == 2,
    ensures
        flatten_files(groups).len() == 2 * groups.len(),
        forall|k: int|
            0 <= k < groups.len() ==> flatten_files(groups)[2 * k] == (#[trigger] groups[k])[0]
                && flatten_files(groups)[2 * k + 1] == groups[k][1],
    decreases groups.len(),
{
    if groups.len() > 0 {
        let prev = groups.drop_last();
        assert forall|k: int| 0 <= k < prev.len() implies (#[trigger] prev[k]).len() == 2 by {
            assert(prev[k] == groups[k]);
        }
        lemma_flatten_pairs(prev);
        assert forall|k: int| 0 <= k < groups.len() implies flatten_files(groups)[2 * k] == (
        #[trigger] groups[k])[0] && flatten_files(groups)[2 * k + 1] == groups[k][1] by {
            if k < prev.len() {
                assert(prev[k] == groups[k]);
            } else {
                assert(groups.last() == groups[k]);
            }
        }
    }
}

/// Each table gets a migration directory `migrations/<NNNN>_create_<table>`,
/// `NNNN` its zero-padded position from 1, holding its `up.sql` and a
/// `down.sql` that drops the table.
pub proof fn law_migration_layout(tables: Seq<TableDefV>, config: ConfigV)
    ensures
        spec_generate_migrations(tables, config) matches Ok(files) ==> {
            &&& files.len() == 2 * tables.len()
            &&& forall|k: int|
                #![trigger tables[k]]
                0 <= k < tables.len() ==> files[2 * k].path == migration_dir(k, tables[k].sql_table)
                    + "/up.sql"@ && files[2 * k + 1] == GeneratedFileV {
                    path: migration_dir(k, tables[k].sql_table) + "/down.sql"@,
                    contents: "DROP TABLE "@ + tables[k].sql_table + ";\n"@,
                }
        },
{
    let idx = Seq::new(tables.len(), |i: int| i);
    let g = |i: int| migration_pair(i, tables[i], config);
    lemma_all_ok_len(idx, g);
    if all_ok(idx, g) is Ok {
        let groups = all_ok(idx, g)->Ok_0;
        assert forall|k: int| 0 <= k < groups.len() implies (#[trigger] groups[k]).len() == 2 by {
            lemma_all_ok_index(idx, g, k);
        }
        lemma_flatten_pairs(groups);
        assert forall|k: int| #![trigger tables[k]] 0 <= k < tables.len() implies flatten_files(groups)[2 * k].path
            == migration_dir(k, tables[k].sql_table) + "/up.sql"@ && flatten_files(groups)[2 * k
            + 1] == GeneratedFileV {
            path: migration_dir(k, tables[k].sql_table) + "/down.sql"@,
            contents: "DROP TABLE "@ + tables[k].sql_table + ";\n"@,
        } by {
            lemma_all_ok_index(idx, g, k);
            assert(groups[k] == flatten_files(groups).subrange(2 * k, 2 * k + 2));
        }
    }
}

/// The column lines of a migration: one per field, in field order, each its
/// resolved column and Postgres type, `NOT NULL` unless optional or the
/// inline key, its `DEFAULT`, and `PRIMARY KEY` on a single-column key.
pub proof fn law_column_lines(fields: Seq<FieldDefV>, rs: Seq<ResolvedTypeV>, pk_cols: Seq<Seq<char>>)
    ensures
        column_lines(fields, rs, pk_cols).len() == rs.len(),
        forall|j: int|
            0 <= j < rs.len() ==> #[trigger] column_lines(fields, rs, pk_cols)[j] == body_line(
                fields[j],
                rs[j],
                is_inline_pk(pk_cols, rs[j].column_name),
            ),
    decreases rs.len(),
{
    if rs.len() > 0 {
        let prev = rs.drop_last();
        law_column_lines(fields, prev, pk_cols);
        assert forall|j: int| 0 <= j < rs.len() implies #[trigger] column_lines(fields, rs, pk_cols)[j]
            == body_line(fields[j], rs[j], is_inline_pk(pk_cols, rs[j].column_name)) by {
            if j < prev.len() {
                assert(column_lines(fields, rs, pk_cols)[j] == column_lines(fields, prev, pk_cols)[j]);
                assert(prev[j] == rs[j]);
            }
        }
    }
}

/// On success, each table's `up.sql` creates the table from its column lines
/// (plus a table-level key for a composite key) and then indexes each
/// secondary key, in order; the resolutions are those of the fields.
pub proof fn law_migration_contents(tables: Seq<TableDefV>, config: ConfigV, k: int)
    requires
        0 <= k < tables.len(),
        spec_generate_migrations(tables, config) is Ok,
    ensures
        ({
            let t = tables[k];
            let rs = resolve_all(t, config)->Ok_0;
            &&& resolve_all(t, config) is Ok
            &&& rs.len() == t.fields.len()
            &&& forall|j: int|
                0 <= j < rs.len() ==> spec_resolve(#[trigger] t.fields[j], t.types, config)
                    == Ok::<ResolvedTypeV, TypeErrorV>(rs[j])
            &&& spec_generate_migrations(tables, config)->Ok_0[2 * k].contents == up_text(
                t.sql_table,
                table_body(t.fields, rs, pk_columns(t.primary_key)),
                t.secondary_keys,
            )
        }),
{
    let idx = Seq::new(tables.len(), |i: int| i);
    let g = |i: int| migration_pair(i, tables[i], config);
    lemma_all_ok_len(idx, g);
    let groups = all_ok(idx, g)->Ok_0;
    assert forall|i: int| 0 <= i < groups.len() implies (#[trigger] groups[i]).len() == 2 by {
        lemma_all_ok_index(idx, g, i);
    }
    lemma_flatten_pairs(groups);
    lemma_all_ok_index(idx, g, k);
    assert(idx[k] == k);
    let t = tables[k];
    let h = |f: FieldDefV| type_err(spec_resolve(f, t.types, config));
    lemma_all_ok_len(t.fields, h);
    assert forall|j: int| 0 <= j < t.fields.len() implies spec_resolve(#[trigger] t.fields[j], t.types, config)
        == Ok::<ResolvedTypeV, TypeErrorV>(resolve_all(t, config)->Ok_0[j]) by {
        lemma_all_ok_index(t.fields, h, j);
    }
}

/// On success, each table's model file holds the row struct with every
/// resolved field in order and the insert struct with the non-timestamp ones,
/// after the `use` lines of `add_imports`; the resolutions are those of the
/// fields.
pub proof fn law_model_contents(tables: Seq<TableDefV>, config: ConfigV, k: int)
    requires
        0 <= k < tables.len(),
        spec_generate_models(tables, config) is Ok,
    ensures
        ({
            let t = tables[k];
            let rs = resolve_all(t, config)->Ok_0;
            &&& resolve_all(t, config) is Ok
            &&& rs.len() == t.fields.len()
            &&& forall|j: int|
                0 <= j < rs.len() ==> spec_resolve(#[trigger] t.fields[j], t.types, config)
                    == Ok::<ResolvedTypeV, TypeErrorV>(rs[j])
            &&& spec_generate_models(tables, config)->Ok_0[k].contents == model_text(
                add_imports(initial_imports(t.sql_table), rs),
                t.sql_table,
                t.name,
                pk_columns(t.primary_key),
                rs,
                insert_fields(t.fields, rs),
            )
        }),
{
    let fm = |t: TableDefV| model_file(t, config);
    lemma_all_ok_index(tables, fm, k);
    lemma_all_ok_len(tables, fm);
    assert(spec_generate_models(tables, config)->Ok_0[k] == all_ok(tables, fm)->Ok_0[k]);
    let t = tables[k];
    let g = |f: FieldDefV| type_err(spec_resolve(f, t.types, config));
    lemma_all_ok_len(t.fields, g);
    assert forall|j: int| 0 <= j < t.fields.len() implies spec_resolve(#[trigger] t.fields[j], t.types, config)
        == Ok::<ResolvedTypeV, TypeErrorV>(resolve_all(t, config)->Ok_0[j]) by {
        lemma_all_ok_index(t.fields, g, j);
    }
}

// ---------- the order of dependency names ----------

/// `seq_lt` is irreflexive.
pub proof fn lemma_seq_lt_irreflexive(a: Seq<char>)
    ensures
        !seq_lt(a, a),
    decreases a.len(),
{
    if a.len() > 0 {
        lemma_seq_lt_irreflexive(a.drop_first());
    }
}

/// `seq_lt` is transitive.
pub proof fn lemma_seq_lt_transitive(a: Seq<char>, b: Seq<char>, c: Seq<char>)
    requires
        seq_lt(a, b),
        seq_lt(b, c),
    ensures
        seq_lt(a, c),
    decreases a.len(),
{
    if a.len() > 0 && b.len() > 0 && c.len() > 0 && a[0] == b[0] && b[0] == c[0] {
        lemma_seq_lt_transitive(a.drop_first(), b.drop_first(), c.drop_first());
    }
}

/// Distinct sequences are ordered one way or the other.
pub proof fn lemma_seq_lt_total(a: Seq<char>, b: Seq<char>)
    ensures
        a == b || seq_lt(a, b) || seq_lt(b, a),
    decreases a.len(),
{
    if a.len() > 0 && b.len() > 0 && a[0] == b[0] {
        lemma_seq_lt_total(a.drop_first(), b.drop_first());
        if a.drop_first() == b.drop_first() {
            assert forall|i: int| 0 <= i < a.len() implies a[i] == b[i] by {
                if i > 0 {
                    assert(a[i] == a.drop_first()[i - 1]);
                    assert(b[i] == b.drop_first()[i - 1]);
                }
            }
            assert(a =~= b);
        }
    }
    if a.len() == 0 && b.len() == 0 {
        assert(a =~= b);
    }
    if a.len() > 0 && b.len() > 0 && a[0] != b[0] {
        assert((a[0] as int) != (b[0] as int));
    }
}

/// The names of `m` strictly increase, so no name occurs twice.
pub open spec fn sorted_deps(m: DepsV) -> bool {
    forall|i: int, j: int| 0 <= i < j < m.len() ==> seq_lt(m[i].0, m[j].0)
}

/// `dep_pos` is the first position whose name is not below `k`.
pub proof fn lemma_dep_pos(m: DepsV, k: Seq<char>)
    ensures
        0 <= dep_pos(m, k) <= m.len(),
        forall|j: int| 0 <= j < dep_pos(m, k) ==> seq_lt(#[trigger] m[j].0, k),
        dep_pos(m, k) < m.len() ==> !seq_lt(m[dep_pos(m, k)].0, k),
    decreases m.len(),
{
    if m.len() > 0 && seq_lt(m[0].0, k) {
        lemma_dep_pos(m.drop_first(), k);
        assert forall|j: int| 0 <= j < dep_pos(m, k) implies seq_lt(#[trigger] m[j].0, k) by {
            if j > 0 {
                assert(m[j] == m.drop_first()[j - 1]);
            }
        }
    }
}

/// Putting an entry keeps the names sorted; the put name is present, every
/// entry under another name stays, and without `overwrite` every entry stays.
pub proof fn lemma_dep_put(m: DepsV, k: Seq<char>, v: Seq<char>, overwrite: bool)
    requires
        sorted_deps(m),
    ensures
        sorted_deps(dep_put(m, k, v, overwrite)),
        exists|i: int| 0 <= i < dep_put(m, k, v, overwrite).len() && dep_put(m, k, v, overwrite)[i].0 == k,
        overwrite ==> dep_put(m, k, v, overwrite).contains((k, v)),
        forall|e: (Seq<char>, Seq<char>)| #[trigger] m.contains(e) && (!overwrite || e.0 != k) ==> dep_put(
            m,
            k,
            v,
            overwrite,
        ).contains(e),
{
    lemma_dep_pos(m, k);
    let i = dep_pos(m, k);
    let r = dep_put(m, k, v, overwrite);
    if i < m.len() && m[i].0 == k {
        assert(r[i].0 == k);
        if overwrite {
            assert(r[i] == (k, v));
        }
        assert forall|e: (Seq<char>, Seq<char>)| #[trigger] m.contains(e) && (!overwrite || e.0 != k) implies r.contains(e) by {
            let j = choose|j: int| 0 <= j < m.len() && m[j] == e;
            if overwrite {
                assert(j != i);
            }
            assert(r[j] == e);
        }
    } else {
        assert(r[i] == (k, v));
        if i < m.len() {
            lemma_seq_lt_total(m[i].0, k);
        }
        assert forall|a: int, b: int| 0 <= a < b < r.len() implies seq_lt(r[a].0, r[b].0) by {
            if b < i {
                assert(r[a] == m[a] && r[b] == m[b]);
            } else if b == i {
                assert(r[a] == m[a]);
            } else if a == i {
                assert(r[b] == m[b - 1]);
                if b - 1 > i {
                    lemma_seq_lt_transitive(k, m[i].0, m[b - 1].0);
                }
            } else if a < i {
                assert(r[a] == m[a] && r[b] == m[b - 1]);
                if a < b - 1 {
                } else {
                    assert(false);
                }
            } else {
                assert(r[a] == m[a - 1] && r[b] == m[b - 1]);
            }
        }
        assert forall|e: (Seq<char>, Seq<char>)| #[trigger] m.contains(e) && (!overwrite || e.0 != k) implies r.contains(e) by {
            let j = choose|j: int| 0 <= j < m.len() && m[j] == e;
            if j < i {
                assert(r[j] == e);
            } else {
                assert(r[j + 1] == e);
            }
        }
    }
}

/// The base table is sorted.
pub proof fn lemma_base_deps_sorted(deps: DepsV)
    ensures
        sorted_deps(base_deps(deps)),
    decreases deps.len(),
{
    if deps.len() > 0 {
        lemma_base_deps_sorted(deps.drop_last());
        lemma_dep_put(base_deps(deps.drop_last()), deps.last().0, deps.last().1, true);
    }
}

/// Adding crates keeps the table sorted and every entry it had, and adds an
/// entry for the crate of each field.
pub proof fn lemma_add_crates(m: DepsV, fields: Seq<FieldDefV>, config: ConfigV)
    requires
        sorted_deps(m),
    ensures
        sorted_deps(add_crates(m, fields, config)),
        forall|e: (Seq<char>, Seq<char>)| #[trigger] m.contains(e) ==> add_crates(m, fields, config).contains(e),
        forall|i: int|
            #![trigger fields[i]]
            0 <= i < fields.len() && field_crate(config, fields[i]) is Some ==> exists|j: int|
                0 <= j < add_crates(m, fields, config).len() && add_crates(m, fields, config)[j].0
                    == (field_crate(config, fields[i])->0).0,
    decreases fields.len(),
{
    if fields.len() > 0 {
        let prev = fields.drop_last();
        lemma_add_crates(m, prev, config);
        let acc = add_crates(m, prev, config);
        let r = add_crates(m, fields, config);
        if let Some((n, f)) = field_crate(config, fields.last()) {
            lemma_dep_put(acc, n, f, false);
            assert forall|i: int|
                #![trigger fields[i]]
                0 <= i < fields.len() && field_crate(config, fields[i]) is Some implies exists|j: int|
                    0 <= j < r.len() && r[j].0 == (field_crate(config, fields[i])->0).0 by {
                if i < prev.len() {
                    assert(prev[i] == fields[i]);
                    let j = choose|j: int| 0 <= j < acc.len() && acc[j].0 == (field_crate(config, prev[i])->0).0;
                    assert(acc.contains(acc[j]));
                    assert(r.contains(acc[j]));
                }
            }
        } else {
            assert forall|i: int|
                #![trigger fields[i]]
                0 <= i < fields.len() && field_crate(config, fields[i]) is Some implies exists|j: int|
                    0 <= j < r.len() && r[j].0 == (field_crate(config, fields[i])->0).0 by {
                assert(prev[i] == fields[i]);
            }
        }
    }
}

/// Every field of a table is among `all_fields`.
pub proof fn lemma_all_fields_contains(tables: Seq<TableDefV>, k: int, j: int)
    requires
        0 <= k < tables.len(),
        0 <= j < tables[k].fields.len(),
    ensures
        all_fields(tables).contains(tables[k].fields[j]),
    decreases tables.len(),
{
    let prev = all_fields(tables.drop_last());
    if k == tables.len() - 1 {
        assert(all_fields(tables)[prev.len() + j] == tables[k].fields[j]);
    } else {
        lemma_all_fields_contains(tables.drop_last(), k, j);
        let i = choose|i: int| 0 <= i < prev.len() && prev[i] == tables[k].fields[j];
        assert(all_fields(tables)[i] == prev[i]);
    }
}

/// The dependency table of a generated `Cargo.toml`: names strictly sorted
/// (so each once), a `diesel` entry always present, every entry of the
/// project's base table kept as written, an entry for the crate of every
/// config type a field uses, and nothing else: each entry is a base entry,
/// the default `diesel`, or the crate line of a type some field uses.
pub proof fn law_cargo_dependencies(tables: Seq<TableDefV>, config: ConfigV)
    ensures
        sorted_deps(spec_deps(tables, config)),
        exists|i: int| 0 <= i < spec_deps(tables, config).len() && spec_deps(tables, config)[i].0 == "diesel"@,
        forall|e: (Seq<char>, Seq<char>)|
            #[trigger] base_deps(config.dependencies).contains(e) ==> spec_deps(tables, config).contains(e),
        forall|k: int, j: int|
            0 <= k < tables.len() && 0 <= j < tables[k].fields.len() && field_crate(
                config,
                #[trigger] tables[k].fields[j],
            ) is Some ==> exists|i: int|
                0 <= i < spec_deps(tables, config).len() && spec_deps(tables, config)[i].0
                    == (field_crate(config, tables[k].fields[j])->0).0,
        forall|e: (Seq<char>, Seq<char>)|
            #[trigger] spec_deps(tables, config).contains(e) ==> config.dependencies.contains(e) || e == (
                "diesel"@,
                default_diesel(),
            ) || exists|k: int, j: int|
                0 <= k < tables.len() && 0 <= j < tables[k].fields.len() && field_crate(
                    config,
                    tables[k].fields[j],
                ) == Some(e),
{
    let base = base_deps(config.dependencies);
    lemma_base_deps_sorted(config.dependencies);
    lemma_dep_put(base, "diesel"@, default_diesel(), false);
    let start = dep_put(base, "diesel"@, default_diesel(), false);
    let fields = all_fields(tables);
    lemma_add_crates(start, fields, config);
    let d = spec_deps(tables, config);
    let i = choose|i: int| 0 <= i < start.len() && start[i].0 == "diesel"@;
    assert(start.contains(start[i]));
    assert(d.contains(start[i]));
    assert forall|k: int, j: int|
        0 <= k < tables.len() && 0 <= j < tables[k].fields.len() && field_crate(
            config,
            #[trigger] tables[k].fields[j],
        ) is Some implies exists|i: int| 0 <= i < d.len() && d[i].0 == (field_crate(config, tables[k].fields[j])->0).0 by {
        lemma_all_fields_contains(tables, k, j);
        let x = choose|x: int| 0 <= x < fields.len() && fields[x] == tables[k].fields[j];
        assert(fields[x] == tables[k].fields[j]);
    }
    lemma_base_deps_source(config.dependencies);
    lemma_dep_put_source(base, "diesel"@, default_diesel(), false);
    lemma_add_crates_source(start, fields, config);
    assert forall|e: (Seq<char>, Seq<char>)| #[trigger] d.contains(e) implies config.dependencies.contains(e)
        || e == ("diesel"@, default_diesel()) || exists|k: int, j: int|
        0 <= k < tables.len() && 0 <= j < tables[k].fields.len() && field_crate(
            config,
            tables[k].fields[j],
        ) == Some(e) by {
        if !start.contains(e) {
            let x = choose|x: int| 0 <= x < fields.len() && field_crate(config, fields[x]) == Some(e);
            lemma_all_fields_member(tables, x);
        } else if base.contains(e) {
        }
    }
}

/// Each entry of `dep_put(m, k, v, _)` is an entry of `m` or `(k, v)` itself.
pub proof fn lemma_dep_put_source(m: DepsV, k: Seq<char>, v: Seq<char>, overwrite: bool)
    ensures
        forall|e: (Seq<char>, Seq<char>)| #[trigger] dep_put(m, k, v, overwrite).contains(e) ==> m.contains(e)
            || e == (k, v),
{
    lemma_dep_pos_bounds(m, k);
    let i = dep_pos(m, k);
    let r = dep_put(m, k, v, overwrite);
    assert forall|e: (Seq<char>, Seq<char>)| #[trigger] r.contains(e) implies m.contains(e) || e == (k, v) by {
        let j = choose|j: int| 0 <= j < r.len() && r[j] == e;
        if i < m.len() && m[i].0 == k {
            if !overwrite || j != i {
                assert(m[j] == e);
            }
        } else if j < i {
            assert(m[j] == e);
        } else if j > i {
            assert(m[j - 1] == e);
        }
    }
}

/// Each entry of the base table is an entry of the config as written.
pub proof fn lemma_base_deps_source(deps: DepsV)
    ensures
        forall|e: (Seq<char>, Seq<char>)| #[trigger] base_deps(deps).contains(e) ==> deps.contains(e),
    decreases deps.len(),
{
    if deps.len() > 0 {
        let prev = deps.drop_last();
        lemma_base_deps_source(prev);
        lemma_dep_put_source(base_deps(prev), deps.last().0, deps.last().1, true);
        assert forall|e: (Seq<char>, Seq<char>)| #[trigger] base_deps(deps).contains(e) implies deps.contains(
            e,
        ) by {
            if base_deps(prev).contains(e) {
                let j = choose|j: int| 0 <= j < prev.len() && prev[j] == e;
                assert(deps[j] == e);
            } else {
                assert(deps[deps.len() - 1] == e);
            }
        }
    }
}

/// Each entry `add_crates` holds beyond those of `m` is the crate line of one
/// of the fields.
pub proof fn lemma_add_crates_source(m: DepsV, fields: Seq<FieldDefV>, config: ConfigV)
    ensures
        forall|e: (Seq<char>, Seq<char>)| #[trigger] add_crates(m, fields, config).contains(e) ==> m.contains(e)
            || exists|i: int| 0 <= i < fields.len() && field_crate(config, fields[i]) == Some(e),
    decreases fields.len(),
{
    if fields.len() > 0 {
        let prev = fields.drop_last();
        lemma_add_crates_source(m, prev, config);
        let acc = add_crates(m, prev, config);
        if let Some((n, f)) = field_crate(config, fields.last()) {
            lemma_dep_put_source(acc, n, f, false);
        }
        assert forall|e: (Seq<char>, Seq<char>)| #[trigger] add_crates(m, fields, config).contains(e) implies m.contains(
            e,
        ) || exists|i: int| 0 <= i < fields.len() && field_crate(config, fields[i]) == Some(e) by {
            if acc.contains(e) {
                if !m.contains(e) {
                    let i = choose|i: int| 0 <= i < prev.len() && field_crate(config, prev[i]) == Some(e);
                    assert(fields[i] == prev[i]);
                }
            } else {
                assert(fields[fields.len() - 1] == fields.last());
            }
        }
    }
}

/// Each field of `all_fields(tables)` is a field of one of the tables.
pub proof fn lemma_all_fields_member(tables: Seq<TableDefV>, x: int)
    requires
        0 <= x < all_fields(tables).len(),
    ensures
        exists|k: int, j: int|
            0 <= k < tables.len() && 0 <= j < tables[k].fields.len() && #[trigger] tables[k].fields[j]
                == all_fields(tables)[x],
    decreases tables.len(),
{
    let prev = tables.drop_last();
    let n = all_fields(prev).len();
    if x < n {
        lemma_all_fields_member(prev, x);
        let (k, j) = choose|k: int, j: int|
            0 <= k < prev.len() && 0 <= j < prev[k].fields.len() && #[trigger] prev[k].fields[j]
                == all_fields(prev)[x];
        assert(tables[k] == prev[k]);
        assert(all_fields(tables)[x] == all_fields(prev)[x]);
    } else {
        let last = tables.len() - 1;
        assert(tables[last] == tables.last());
        assert(all_fields(tables)[x] == tables[last].fields[x - n]);
    }
}

/// Some entry of `m` is named `k`.
pub open spec fn has_dep(m: DepsV, k: Seq<char>) -> bool {
    exists|i: int| 0 <= i < m.len() && m[i].0 == k
}

/// The config gives field `f`'s type a crate line naming the crate `n`.
pub open spec fn crate_named(config: ConfigV, f: FieldDefV, n: Seq<char>) -> bool {
    field_crate(config, f) matches Some(c) && c.0 == n
}

/// `e` is the crate line of some field of `fields`, and no earlier field's
/// type names the same crate.
pub open spec fn first_crate(config: ConfigV, fields: Seq<FieldDefV>, e: (Seq<char>, Seq<char>)) -> bool {
    exists|i: int|
        0 <= i < fields.len() && field_crate(config, #[trigger] fields[i]) == Some(e) && forall|j: int|
            0 <= j < i ==> !crate_named(config, #[trigger] fields[j], e.0)
}

/// Putting `k = v` into a sorted table without overwriting adds exactly that
/// entry when no entry is named `k`, and nothing otherwise.
pub proof fn lemma_dep_put_keep(m: DepsV, k: Seq<char>, v: Seq<char>)
    requires
        sorted_deps(m),
    ensures
        forall|e: (Seq<char>, Seq<char>)|
            #[trigger] dep_put(m, k, v, false).contains(e) <==> (m.contains(e) || (e == (k, v)
                && !has_dep(m, k))),
        forall|n: Seq<char>| #[trigger] has_dep(dep_put(m, k, v, false), n) <==> (has_dep(m, n) || n == k),
        !has_dep(m, k) ==> dep_put(m, k, v, true) == dep_put(m, k, v, false),
{
    lemma_dep_pos(m, k);
    let i = dep_pos(m, k);
    let r = dep_put(m, k, v, false);
    if i < m.len() && m[i].0 == k {
        assert(has_dep(m, k));
        assert forall|n: Seq<char>| #[trigger] has_dep(r, n) <==> (has_dep(m, n) || n == k) by {}
    } else {
        assert forall|j: int| 0 <= j < m.len() implies m[j].0 != k by {
            lemma_seq_lt_irreflexive(k);
            if j >= i {
                lemma_seq_lt_total(m[i].0, k);
                if j > i {
                    lemma_seq_lt_transitive(k, m[i].0, m[j].0);
                }
            }
        }
        assert(!has_dep(m, k));
        assert forall|e: (Seq<char>, Seq<char>)| #[trigger] r.contains(e) <==> (m.contains(e) || e == (k, v)) by {
            if r.contains(e) {
                let j = choose|j: int| 0 <= j < r.len() && r[j] == e;
                if j < i {
                    assert(r[j] == m[j]);
                } else if j > i {
                    assert(r[j] == m[j - 1]);
                }
            }
            if m.contains(e) {
                let j = choose|j: int| 0 <= j < m.len() && m[j] == e;
                if j < i {
                    assert(r[j] == e);
                } else {
                    assert(r[j + 1] == e);
                }
            }
            if e == (k, v) {
                assert(r[i] == e);
            }
        }
        assert forall|n: Seq<char>| #[trigger] has_dep(r, n) <==> (has_dep(m, n) || n == k) by {
            if has_dep(r, n) {
                let j = choose|j: int| 0 <= j < r.len() && r[j].0 == n;
                if j < i {
                    assert(r[j] == m[j]);
                } else if j > i {
                    assert(r[j] == m[j - 1]);
                }
            }
            if has_dep(m, n) {
                let j = choose|j: int| 0 <= j < m.len() && m[j].0 == n;
                if j < i {
                    assert(r[j] == m[j]);
                } else {
                    assert(r[j + 1] == m[j]);
                }
            }
            if n == k {
                assert(r[i].0 == k);
            }
        }
    }
}

/// With every name written once, the base table holds exactly the project's
/// dependencies.
pub proof fn lemma_base_deps_exact(deps: DepsV)
    requires
        names_unique(deps),
    ensures
        forall|e: (Seq<char>, Seq<char>)| #[trigger] base_deps(deps).contains(e) <==> deps.contains(e),
        forall|n: Seq<char>| #[trigger] has_dep(base_deps(deps), n) <==> has_dep(deps, n),
    decreases deps.len(),
{
    if deps.len() > 0 {
        let prev = deps.drop_last();
        assert forall|i: int, j: int| 0 <= i < j < prev.len() implies prev[i].0 != prev[j].0 by {
            assert(prev[i] == deps[i] && prev[j] == deps[j]);
        }
        lemma_base_deps_exact(prev);
        lemma_base_deps_sorted(prev);
        let b = base_deps(prev);
        let last = deps.last();
        assert(deps[deps.len() - 1] == last);
        if has_dep(prev, last.0) {
            let j = choose|j: int| 0 <= j < prev.len() && prev[j].0 == last.0;
            assert(deps[j] == prev[j]);
        }
        assert(!has_dep(b, last.0));
        lemma_dep_put_keep(b, last.0, last.1);
        let r = base_deps(deps);
        assert(r == dep_put(b, last.0, last.1, false));
        assert forall|e: (Seq<char>, Seq<char>)| #[trigger] r.contains(e) <==> deps.contains(e) by {
            if deps.contains(e) {
                let j = choose|j: int| 0 <= j < deps.len() && deps[j] == e;
                if j < prev.len() {
                    assert(prev[j] == e);
                    assert(prev.contains(e));
                }
            }
            if prev.contains(e) {
                let j = choose|j: int| 0 <= j < prev.len() && prev[j] == e;
                assert(deps[j] == e);
            }
        }
        assert forall|n: Seq<char>| #[trigger] has_dep(r, n) <==> has_dep(deps, n) by {
            if has_dep(deps, n) {
                let j = choose|j: int| 0 <= j < deps.len() && deps[j].0 == n;
                if j < prev.len() {
                    assert(prev[j] == deps[j]);
                    assert(has_dep(prev, n));
                }
            }
            if has_dep(prev, n) {
                let j = choose|j: int| 0 <= j < prev.len() && prev[j].0 == n;
                assert(deps[j] == prev[j]);
            }
        }
    }
}

/// Adding the fields' crates to a sorted table adds, for each crate not yet
/// named there, the first crate line that names it, and nothing else.
pub proof fn lemma_add_crates_exact(m: DepsV, fields: Seq<FieldDefV>, config: ConfigV)
    requires
        sorted_deps(m),
    ensures
        forall|e: (Seq<char>, Seq<char>)|
            #[trigger] add_crates(m, fields, config).contains(e) <==> (m.contains(e) || (!has_dep(
                m,
                e.0,
            ) && first_crate(config, fields, e))),
        forall|n: Seq<char>|
            #[trigger] has_dep(add_crates(m, fields, config), n) <==> (has_dep(m, n) || exists|i: int|
                0 <= i < fields.len() && crate_named(config, #[trigger] fields[i], n)),
    decreases fields.len(),
{
    if fields.len() > 0 {
        let prev = fields.drop_last();
        lemma_add_crates_exact(m, prev, config);
        lemma_add_crates(m, prev, config);
        let acc = add_crates(m, prev, config);
        let r = add_crates(m, fields, config);
        let last = fields.last();
        assert(fields[fields.len() - 1] == last);
        assert forall|j: int| 0 <= j < prev.len() implies prev[j] == fields[j] by {}
        match field_crate(config, last) {
            Some(c) => {
                lemma_dep_put_keep(acc, c.0, c.1);
                assert(r == dep_put(acc, c.0, c.1, false));
                assert forall|e: (Seq<char>, Seq<char>)| #[trigger] r.contains(e) <==> (m.contains(e) || (
                    !has_dep(m, e.0) && first_crate(config, fields, e))) by {
                    if first_crate(config, prev, e) {
                        let i = choose|i: int|
                            0 <= i < prev.len() && field_crate(config, #[trigger] prev[i]) == Some(e)
                                && forall|j: int| 0 <= j < i ==> !crate_named(config, #[trigger] prev[j], e.0);
                        assert(fields[i] == prev[i]);
                        assert forall|j: int| 0 <= j < i implies !crate_named(config, #[trigger] fields[j], e.0) by {
                            assert(fields[j] == prev[j]);
                        }
                        assert(first_crate(config, fields, e));
                    }
                    if first_crate(config, fields, e) && !first_crate(config, prev, e) {
                        let i = choose|i: int|
                            0 <= i < fields.len() && field_crate(config, #[trigger] fields[i]) == Some(e)
                                && forall|j: int| 0 <= j < i ==> !crate_named(config, #[trigger] fields[j], e.0);
                        if i < prev.len() {
                            assert(prev[i] == fields[i]);
                            assert forall|j: int| 0 <= j < i implies !crate_named(config, #[trigger] prev[j], e.0) by {
                                assert(fields[j] == prev[j]);
                            }
                            assert(first_crate(config, prev, e));
                        } else {
                            assert(e == c);
                            if has_dep(acc, c.0) && !has_dep(m, c.0) {
                                let x = choose|x: int| 0 <= x < prev.len() && crate_named(config, #[trigger] prev[x], c.0);
                                assert(fields[x] == prev[x]);
                                assert(!crate_named(config, fields[x], e.0));
                            }
                        }
                    }
                    if e == c && !has_dep(acc, c.0) {
                        assert forall|j: int| 0 <= j < fields.len() - 1 implies !crate_named(config, #[trigger] fields[j], e.0) by {
                            assert(fields[j] == prev[j]);
                            if crate_named(config, prev[j], c.0) {
                                assert(has_dep(acc, c.0));
                            }
                        }
                        assert(field_crate(config, fields[fields.len() - 1]) == Some(e));
                        assert(first_crate(config, fields, e));
                    }
                    if acc.contains(e) && !m.contains(e) {
                        assert(first_crate(config, prev, e));
                    }
                }
                assert forall|n: Seq<char>| #[trigger] has_dep(r, n) <==> (has_dep(m, n) || exists|i: int|
                    0 <= i < fields.len() && crate_named(config, #[trigger] fields[i], n)) by {
                    if exists|i: int| 0 <= i < fields.len() && crate_named(config, #[trigger] fields[i], n) {
                        let i = choose|i: int| 0 <= i < fields.len() && crate_named(config, #[trigger] fields[i], n);
                        if i < prev.len() {
                            assert(prev[i] == fields[i]);
                            assert(crate_named(config, prev[i], n));
                        }
                    }
                    if exists|i: int| 0 <= i < prev.len() && crate_named(config, #[trigger] prev[i], n) {
                        let i = choose|i: int| 0 <= i < prev.len() && crate_named(config, #[trigger] prev[i], n);
                        assert(fields[i] == prev[i]);
                        assert(crate_named(config, fields[i], n));
                    }
                }
            },
            None => {
                assert(r == acc);
                assert forall|e: (Seq<char>, Seq<char>)| first_crate(config, fields, e) <==> #[trigger] first_crate(
                    config,
                    prev,
                    e,
                ) by {
                    if first_crate(config, prev, e) {
                        let i = choose|i: int|
                            0 <= i < prev.len() && field_crate(config, #[trigger] prev[i]) == Some(e)
                                && forall|j: int| 0 <= j < i ==> !crate_named(config, #[trigger] prev[j], e.0);
                        assert(fields[i] == prev[i]);
                        assert forall|j: int| 0 <= j < i implies !crate_named(config, #[trigger] fields[j], e.0) by {
                            assert(fields[j] == prev[j]);
                        }
                    }
                    if first_crate(config, fields, e) {
                        let i = choose|i: int|
                            0 <= i < fields.len() && field_crate(config, #[trigger] fields[i]) == Some(e)
                                && forall|j: int| 0 <= j < i ==> !crate_named(config, #[trigger] fields[j], e.0);
                        assert(i < prev.len());
                        assert(prev[i] == fields[i]);
                        assert forall|j: int| 0 <= j < i implies !crate_named(config, #[trigger] prev[j], e.0) by {
                            assert(fields[j] == prev[j]);
                        }
                    }
                }
                assert forall|n: Seq<char>| #[trigger] has_dep(r, n) <==> (has_dep(m, n) || exists|i: int|
                    0 <= i < fields.len() && crate_named(config, #[trigger] fields[i], n)) by {
                    if exists|i: int| 0 <= i < fields.len() && crate_named(config, #[trigger] fields[i], n) {
                        let i = choose|i: int| 0 <= i < fields.len() && crate_named(config, #[trigger] fields[i], n);
                        assert(i < prev.len());
                        assert(prev[i] == fields[i]);
                        assert(crate_named(config, prev[i], n));
                    }
                    if exists|i: int| 0 <= i < prev.len() && crate_named(config, #[trigger] prev[i], n) {
                        let i = choose|i: int| 0 <= i < prev.len() && crate_named(config, #[trigger] prev[i], n);
                        assert(fields[i] == prev[i]);
                        assert(crate_named(config, fields[i], n));
                    }
                }
            },
        }
    }
}

/// The `Cargo.toml` of a run, in full: the package header, then one
/// `name = fragment` line per dependency, in ascending name order, each name
/// once. With the project's dependencies each written once, the entries are
/// exactly: every project dependency as written; the default `diesel` when
/// the project has none; and, for every other crate, the first crate line
/// (in field order) of a used config type that names it.
pub proof fn law_cargo_toml(tables: Seq<TableDefV>, config: ConfigV, crate_name: Seq<char>)
    requires
        names_unique(config.dependencies),
    ensures
        spec_generate_cargo_toml(tables, config, crate_name) == (GeneratedFileV {
            path: "Cargo.toml"@,
            contents: cargo_text(crate_name, spec_deps(tables, config)),
        }),
        sorted_deps(spec_deps(tables, config)),
        forall|e: (Seq<char>, Seq<char>)|
            #[trigger] spec_deps(tables, config).contains(e) <==> (config.dependencies.contains(e) || (e
                == ("diesel"@, default_diesel()) && !has_dep(config.dependencies, "diesel"@)) || (
            !has_dep(config.dependencies, e.0) && e.0 != "diesel"@ && first_crate(
                config,
                all_fields(tables),
                e,
            ))),
{
    law_cargo_dependencies(tables, config);
    let deps = config.dependencies;
    lemma_base_deps_exact(deps);
    lemma_base_deps_sorted(deps);
    let base = base_deps(deps);
    lemma_dep_put_keep(base, "diesel"@, default_diesel());
    lemma_dep_put(base, "diesel"@, default_diesel(), false);
    let start = dep_put(base, "diesel"@, default_diesel(), false);
    lemma_add_crates_exact(start, all_fields(tables), config);
}

/// `sub` occurs in `s`.
pub open spec fn has_sub(s: Seq<char>, sub: Seq<char>) -> bool {
    exists|i: int| 0 <= i && i + sub.len() <= s.len() && #[trigger] s.subrange(i, i + sub.len()) == sub
}

/// `s` ends with `suffix`.
pub open spec fn ends_with(s: Seq<char>, suffix: Seq<char>) -> bool {
    suffix.len() <= s.len() && s.subrange(s.len() - suffix.len(), s.len() as int) == suffix
}

/// A text that holds `sub` still holds it with text around it.
pub proof fn lemma_has_sub_mid(a: Seq<char>, b: Seq<char>, c: Seq<char>, sub: Seq<char>)
    requires
        has_sub(b, sub),
    ensures
        has_sub(a + b + c, sub),
{
    let i = choose|i: int| 0 <= i && i + sub.len() <= b.len() && #[trigger] b.subrange(i, i + sub.len()) == sub;
    let w = a + b + c;
    assert(w.subrange(a.len() + i, a.len() + i + sub.len()) =~= sub);
}

/// A text that holds `sub` in either of two parts holds it when they are joined.
pub proof fn lemma_has_sub_add(a: Seq<char>, b: Seq<char>, sub: Seq<char>)
    requires
        has_sub(a, sub) || has_sub(b, sub),
    ensures
        has_sub(a + b, sub),
{
    let w = a + b;
    if has_sub(a, sub) {
        let i = choose|i: int| 0 <= i && i + sub.len() <= a.len() && #[trigger] a.subrange(i, i + sub.len()) == sub;
        assert(w.subrange(i, i + sub.len()) =~= sub);
    } else {
        let i = choose|i: int| 0 <= i && i + sub.len() <= b.len() && #[trigger] b.subrange(i, i + sub.len()) == sub;
        assert(w.subrange(a.len() + i, a.len() + i + sub.len()) =~= sub);
    }
}

/// Each part occurs in the concatenation of the parts.
pub proof fn lemma_concat_has(parts: Seq<Seq<char>>, i: int)
    requires
        0 <= i < parts.len(),
    ensures
        has_sub(concat(parts), parts[i]),
    decreases parts.len(),
{
    let prev = parts.drop_last();
    if i == parts.len() - 1 {
        let pos = concat(prev).len() as int;
        assert(concat(parts).subrange(pos, pos + parts[i].len()) =~= parts[i]);
    } else {
        lemma_concat_has(prev, i);
        assert(prev[i] == parts[i]);
        let j = choose|j: int|
            0 <= j && j + prev[i].len() <= concat(prev).len() && #[trigger] concat(prev).subrange(
                j,
                j + prev[i].len(),
            ) == prev[i];
        assert(concat(parts).subrange(j, j + parts[i].len()) =~= concat(prev).subrange(j, j + prev[i].len()));
    }
}

/// The `CREATE INDEX` line of table `sql_table` for the secondary key `f`,
/// on the key's snake_case column.
pub open spec fn create_index_line(sql_table: Seq<char>, f: Seq<char>) -> Seq<char> {
    "\nCREATE INDEX idx_"@ + sql_table + "_"@ + snake_case(f) + " ON "@ + sql_table + " ("@ + snake_case(f)
        + ");"@
}

/// The `CREATE INDEX` lines of table `sql_table` for the secondary keys
/// `sks`: one per key, in key order.
pub open spec fn index_block(sql_table: Seq<char>, sks: Seq<Seq<char>>) -> Seq<char>
    decreases sks.len(),
{
    if sks.len() == 0 {
        Seq::empty()
    } else {
        index_block(sql_table, sks.drop_last()) + create_index_line(sql_table, sks.last())
    }
}

/// The index lines of a migration are `index_block`.
pub proof fn lemma_index_block(sql_table: Seq<char>, sks: Seq<Seq<char>>)
    ensures
        concat(sks.map_values(|f: Seq<char>| index_line(sql_table, f))) == index_block(sql_table, sks),
    decreases sks.len(),
{
    if sks.len() > 0 {
        lemma_index_block(sql_table, sks.drop_last());
        assert(sks.map_values(|f: Seq<char>| index_line(sql_table, f)).drop_last() =~= sks.drop_last().map_values(
            |f: Seq<char>| index_line(sql_table, f),
        ));
    }
}

/// `index_block` holds the line of every secondary key.
pub proof fn lemma_index_block_has(sql_table: Seq<char>, sks: Seq<Seq<char>>, j: int)
    requires
        0 <= j < sks.len(),
    ensures
        has_sub(index_block(sql_table, sks), create_index_line(sql_table, sks[j])),
    decreases sks.len(),
{
    let line = create_index_line(sql_table, sks[j]);
    let prev = sks.drop_last();
    if j == sks.len() - 1 {
        assert(line.subrange(0, 0int + line.len()) =~= line);
        assert(has_sub(line, line));
        lemma_has_sub_add(index_block(sql_table, prev), line, line);
    } else {
        lemma_index_block_has(sql_table, prev, j);
        assert(prev[j] == sks[j]);
        lemma_has_sub_add(index_block(sql_table, prev), create_index_line(sql_table, sks.last()), line);
    }
}

/// On success, each table's `up.sql` closes its `CREATE TABLE` and then
/// holds exactly one `CREATE INDEX idx_<table>_<column> ON <table> (<column>);`
/// line per secondary key, in key order, before its final newline; so the
/// line of every secondary key is there.
pub proof fn law_migration_indexes(tables: Seq<TableDefV>, config: ConfigV, k: int)
    requires
        0 <= k < tables.len(),
        spec_generate_migrations(tables, config) is Ok,
    ensures
        ({
            let t = tables[k];
            let up = spec_generate_migrations(tables, config)->Ok_0[2 * k].contents;
            &&& ends_with(up, "\n);"@ + index_block(t.sql_table, t.secondary_keys) + "\n"@)
            &&& forall|j: int|
                0 <= j < t.secondary_keys.len() ==> has_sub(
                    up,
                    create_index_line(t.sql_table, #[trigger] t.secondary_keys[j]),
                )
        }),
{
    law_migration_contents(tables, config, k);
    let t = tables[k];
    let rs = resolve_all(t, config)->Ok_0;
    let up = spec_generate_migrations(tables, config)->Ok_0[2 * k].contents;
    lemma_index_block(t.sql_table, t.secondary_keys);
    let body = table_body(t.fields, rs, pk_columns(t.primary_key));
    let pre = "CREATE TABLE "@ + t.sql_table + " (\n    "@ + join(body, ",\n    "@);
    let blk = index_block(t.sql_table, t.secondary_keys);
    let suffix = "\n);"@ + blk + "\n"@;
    assert(up =~= pre + suffix);
    assert(up.subrange(up.len() - suffix.len(), up.len() as int) =~= suffix);
    assert(up =~= (pre + "\n);"@ + blk) + "\n"@);
    assert forall|j: int| 0 <= j < t.secondary_keys.len() implies has_sub(
        up,
        create_index_line(t.sql_table, #[trigger] t.secondary_keys[j]),
    ) by {
        let line = create_index_line(t.sql_table, t.secondary_keys[j]);
        lemma_index_block_has(t.sql_table, t.secondary_keys, j);
        lemma_has_sub_add(pre + "\n);"@, blk, line);
        lemma_has_sub_add(pre + "\n);"@ + blk, "\n"@, line);
    }
}

/// The row struct's attribute lines: after the imports, the `table_name`
/// line ends the text before the key attribute.
proof fn lemma_table_name_line(w: Seq<char>, sql_table: Seq<char>)
    ensures
        ends_with(
            w + "\n#[derive(Debug, Clone, Queryable, Selectable, Identifiable)]\n#[diesel(table_name = "@ + sql_table
                + ")]\n"@,
            "#[diesel(table_name = "@ + sql_table + ")]\n"@,
        ),
{
    let lit1 = "\n#[derive(Debug, Clone, Queryable, Selectable, Identifiable)]\n#[diesel(table_name = "@;
    let tab = "#[diesel(table_name = "@;
    let h = w + lit1 + sql_table + ")]\n"@;
    let tail = tab + sql_table + ")]\n"@;
    assert(tab.len() <= lit1.len() && forall|x: int|
        0 <= x < tab.len() ==> #[trigger] lit1[lit1.len() - tab.len() + x] == tab[x]) by {
        reveal_strlit("\n#[derive(Debug, Clone, Queryable, Selectable, Identifiable)]\n#[diesel(table_name = ");
        reveal_strlit("#[diesel(table_name = ");
    }
    reveal_strlit(")]\n");
    assert(h.len() == w.len() + lit1.len() + sql_table.len() + 3);
    assert(tail.len() == tab.len() + sql_table.len() + 3);
    let a = h.len() - tail.len();
    assert forall|x: int| 0 <= x < tail.len() implies #[trigger] h.subrange(a, h.len() as int)[x] == tail[x] by {
        assert(h.subrange(a, h.len() as int)[x] == h[a + x]);
        if x < tab.len() {
            assert(h[a + x] == lit1[lit1.len() - tab.len() + x]);
        }
    }
    assert(h.subrange(a, h.len() as int) =~= tail);
}

/// The text after the key attribute starts with the backend line.
proof fn lemma_backend_line(rest: Seq<char>)
    ensures
        starts_with(
            "#[diesel(check_for_backend(diesel::pg::Pg))]\npub struct "@ + rest,
            "#[diesel(check_for_backend(diesel::pg::Pg))]\n"@,
        ),
{
    let lit2 = "#[diesel(check_for_backend(diesel::pg::Pg))]\npub struct "@;
    let head = "#[diesel(check_for_backend(diesel::pg::Pg))]\n"@;
    let r = lit2 + rest;
    assert(head.len() <= lit2.len() && forall|x: int| 0 <= x < head.len() ==> #[trigger] lit2[x] == head[x])
        by {
        reveal_strlit("#[diesel(check_for_backend(diesel::pg::Pg))]\npub struct ");
        reveal_strlit("#[diesel(check_for_backend(diesel::pg::Pg))]\n");
    }
    assert forall|x: int| 0 <= x < head.len() implies #[trigger] r.take(head.len() as int)[x] == head[x] by {
        assert(r[x] == lit2[x]);
    }
    assert(r.take(head.len() as int) =~= head);
}

/// A model file is the text up to its `table_name` line, the key
/// attribute, then the text from the backend line on.
#[verifier::spinoff_prover]
proof fn lemma_model_text_split(
    imports: Seq<Seq<char>>,
    sql_table: Seq<char>,
    name: Seq<char>,
    pk_cols: Seq<Seq<char>>,
    row: Seq<ResolvedTypeV>,
    insert: Seq<ResolvedTypeV>,
)
    ensures
        model_text(imports, sql_table, name, pk_cols, row, insert) == (wrap_each(imports, "use "@, ";\n"@)
            + "\n#[derive(Debug, Clone, Queryable, Selectable, Identifiable)]\n#[diesel(table_name = "@
            + sql_table + ")]\n"@) + pk_attr(pk_cols) + ("#[diesel(check_for_backend(diesel::pg::Pg))]\npub struct "@
            + (name + " {\n"@ + model_fields_text(row)
            + "}\n\n#[derive(Debug, Clone, Insertable)]\n#[diesel(table_name = "@ + sql_table
            + ")]\npub struct New"@ + name + " {\n"@ + model_fields_text(insert) + "}\n"@)),
{
    let h = wrap_each(imports, "use "@, ";\n"@)
        + "\n#[derive(Debug, Clone, Queryable, Selectable, Identifiable)]\n#[diesel(table_name = "@
        + sql_table + ")]\n"@;
    let rest = name + " {\n"@ + model_fields_text(row)
        + "}\n\n#[derive(Debug, Clone, Insertable)]\n#[diesel(table_name = "@ + sql_table
        + ")]\npub struct New"@ + name + " {\n"@ + model_fields_text(insert) + "}\n"@;
    assert(model_text(imports, sql_table, name, pk_cols, row, insert) =~= h + pk_attr(pk_cols) + (
    "#[diesel(check_for_backend(diesel::pg::Pg))]\npub struct "@ + rest));
}

/// On success, each table's model file names its key for `Identifiable`
/// exactly when the key is not the single column `id`: right after the
/// `#[diesel(table_name = <table>)]` line comes
/// `#[diesel(primary_key(<key columns joined by ", ">))]` in that case, and
/// the backend line directly otherwise (`pk_columns` is the snake_case key
/// columns, in key order).
#[verifier::spinoff_prover]
pub proof fn law_model_key_attribute(tables: Seq<TableDefV>, config: ConfigV, k: int)
    requires
        0 <= k < tables.len(),
        spec_generate_models(tables, config) is Ok,
    ensures
        ({
            let t = tables[k];
            let c = spec_generate_models(tables, config)->Ok_0[k].contents;
            let cols = pk_columns(t.primary_key);
            let attr = if cols == seq!["id"@] {
                Seq::<char>::empty()
            } else {
                "#[diesel(primary_key("@ + join(cols, ", "@) + "))]\n"@
            };
            exists|h: Seq<char>, r: Seq<char>|
                #![trigger ends_with(h, "#[diesel(table_name = "@ + t.sql_table + ")]\n"@), starts_with(r, "#[diesel(check_for_backend(diesel::pg::Pg))]\n"@)]
                c == h + attr + r && ends_with(h, "#[diesel(table_name = "@ + t.sql_table + ")]\n"@)
                    && starts_with(r, "#[diesel(check_for_backend(diesel::pg::Pg))]\n"@)
        }),
{
    law_model_contents(tables, config, k);
    let t = tables[k];
    let rs = resolve_all(t, config)->Ok_0;
    let c = spec_generate_models(tables, config)->Ok_0[k].contents;
    let cols = pk_columns(t.primary_key);
    let w = wrap_each(add_imports(initial_imports(t.sql_table), rs), "use "@, ";\n"@);
    let h = w + "\n#[derive(Debug, Clone, Queryable, Selectable, Identifiable)]\n#[diesel(table_name = "@
        + t.sql_table + ")]\n"@;
    let rest = t.name + " {\n"@ + model_fields_text(rs)
        + "}\n\n#[derive(Debug, Clone, Insertable)]\n#[diesel(table_name = "@ + t.sql_table
        + ")]\npub struct New"@ + t.name + " {\n"@ + model_fields_text(insert_fields(t.fields, rs)) + "}\n"@;
    let r = "#[diesel(check_for_backend(diesel::pg::Pg))]\npub struct "@ + rest;
    let attr = if cols == seq!["id"@] {
        Seq::<char>::empty()
    } else {
        "#[diesel(primary_key("@ + join(cols, ", "@) + "))]\n"@
    };
    if is_default_pk(cols) {
        assert(cols =~= seq!["id"@]);
    }
    assert(pk_attr(cols) == attr);
    lemma_model_text_split(
        add_imports(initial_imports(t.sql_table), rs),
        t.sql_table,
        t.name,
        cols,
        rs,
        insert_fields(t.fields, rs),
    );
    lemma_table_name_line(w, t.sql_table);
    lemma_backend_line(rest);
    assert(c == h + attr + r && ends_with(h, "#[diesel(table_name = "@ + t.sql_table + ")]\n"@)
        && starts_with(r, "#[diesel(check_for_backend(diesel::pg::Pg))]\n"@));
}

/// Every variant of every declared enum round-trips: the enum's generated
/// file holds, for each variant `v`, the `as_str` arm `Name::v => "v",` and
/// the `from_str` arm `"v" => Ok(Name::v),`.
#[verifier::spinoff_prover]
pub proof fn law_enum_arms(tables: Seq<TableDefV>, k: int, j: int, i: int)
    requires
        0 <= k < tables.len(),
        0 <= j < tables[k].types.len(),
        0 <= i < tables[k].types[j]->variants.len(),
    ensures
        ({
            let name = tables[k].types[j]->name;
            let v = tables[k].types[j]->variants[i];
            let files = spec_generate_types(tables);
            exists|x: int|
                0 <= x < files.len() && files[x].path == "src/types/"@ + snake_case(name) + ".rs"@
                    && has_sub(files[x].contents, "            "@ + name + "::"@ + v + " => \""@ + v + "\",\n"@)
                    && has_sub(
                    files[x].contents,
                    "            \""@ + v + "\" => Ok("@ + name + "::"@ + v + "),\n"@,
                )
        }),
{
    let ty = tables[k].types[j];
    let name = ty->name;
    let variants = ty->variants;
    let v = variants[i];
    lemma_all_types_contains(tables, k, j);
    let tys = all_types(tables);
    let x = choose|x: int| 0 <= x < tys.len() && tys[x] == ty;
    let files = spec_generate_types(tables);
    assert(files[x] == type_file(ty));
    let text = enum_text(name, variants);
    assert(files[x].contents == text);
    let arms_a = variants.map_values(|v: Seq<char>| as_str_arm(name, v));
    let arms_f = variants.map_values(|v: Seq<char>| from_str_arm(name, v));
    lemma_concat_has(arms_a, i);
    lemma_concat_has(arms_f, i);
    let arm_a = arms_a[i];
    let arm_f = arms_f[i];
    assert forall|p: Seq<char>, q: Seq<char>| has_sub(p, arm_a) || has_sub(q, arm_a) implies #[trigger] has_sub(
        p + q,
        arm_a,
    ) by {
        lemma_has_sub_add(p, q, arm_a);
    }
    assert forall|p: Seq<char>, q: Seq<char>| has_sub(p, arm_f) || has_sub(q, arm_f) implies #[trigger] has_sub(
        p + q,
        arm_f,
    ) by {
        lemma_has_sub_add(p, q, arm_f);
    }
    assert(has_sub(text, arm_a));
    assert(has_sub(text, arm_f));
}

} // verus!
