//! What the `generate` command computes: the crate name derived from the
//! output directory, and every generated file of a crate, in writing order.

use vstd::prelude::*;

use crate::codegen::{
    file_views, generate_cargo_toml, generate_lib_rs, generate_migrations, generate_models,
    generate_schema, generate_types, spec_generate_cargo_toml, spec_generate_lib_rs,
    spec_generate_migrations, spec_generate_models, spec_generate_schema, spec_generate_types,
    GenError, GenErrorV, GeneratedFile, GeneratedFileV,
};
use crate::config::{Config, ConfigV};
use crate::ir::{opt_view, table_views, TableDef, TableDefV};
use crate::text::substring;

verus! {

/// The last component of `path`, as `Path::file_name` gives it (`None` for a
/// path that ends in `..` or is a root). Which characters separate
/// components is fixed by the platform the library is built for.
pub uninterp spec fn path_file_name(path: Seq<char>) -> Option<Seq<char>>;

/// `Path::file_name` of `path`, as a string; its contract says only that
/// the result is the named function of the argument.
#[verifier::external_body]
fn file_name_of(path: &str) -> (r: Option<String>)
    ensures
        opt_view(r) == path_file_name(path@),
{
    std::path::Path::new(path).file_name().and_then(|s| s.to_str()).map(|s| s.to_string())
}

/// A character Cargo accepts in a package name as is.
pub open spec fn is_name_char(c: char) -> bool {
    ('a' <= c && c <= 'z') || ('A' <= c && c <= 'Z') || ('0' <= c && c <= '9') || c == '-' || c
        == '_'
}

/// `s` with every other character replaced by `_`.
pub open spec fn sanitize(s: Seq<char>) -> Seq<char> {
    s.map_values(|c: char| if is_name_char(c) { c } else { '_' })
}

/// A character Cargo accepts at the start of a package name.
pub open spec fn is_name_start(c: char) -> bool {
    ('a' <= c && c <= 'z') || ('A' <= c && c <= 'Z') || c == '_'
}

/// The crate name for output directory `out`: its sanitized basename, or
/// `generated_diesel` when there is none or nothing is left of it. A name
/// that would start with a digit or `-` gets a `generated_` prefix.
pub open spec fn spec_crate_name(out: Seq<char>) -> Seq<char> {
    let base = match path_file_name(out) {
        Some(b) => b,
        None => "generated_diesel"@,
    };
    let s = sanitize(base);
    if s.len() == 0 {
        "generated_diesel"@
    } else if !is_name_start(s[0]) {
        "generated_"@ + s
    } else {
        s
    }
}

/// Derive a valid Cargo package name from the output directory's basename.
pub fn crate_name_from(out: &str) -> (r: String)
    ensures
        r@ == spec_crate_name(out@),
{
    let base = match file_name_of(out) {
        Some(b) => b,
        None => String::from_str("generated_diesel"),
    };
    let base = base.as_str();
    let n = base.unicode_len();
    let mut sanitized = String::new();
    let mut i: usize = 0;
    while i < n
        invariant
            i <= n,
            n == base@.len(),
            sanitized@ == sanitize(base@.take(i as int)),
        decreases n - i,
    {
        let c = base.get_char(i);
        if ('a' <= c && c <= 'z') || ('A' <= c && c <= 'Z') || ('0' <= c && c <= '9') || c == '-'
            || c == '_' {
            let piece = substring(base, i, i + 1);
            sanitized.append(piece.as_str());
        } else {
            sanitized.append("_");
        }
        proof {
            reveal_strlit("_");
        }
        assert(sanitized@ =~= sanitize(base@.take(i + 1)));
        i += 1;
    }
    assert(base@.take(n as int) =~= base@);
    if n == 0 {
        String::from_str("generated_diesel")
    } else {
        let c = sanitized.as_str().get_char(0);
        if ('a' <= c && c <= 'z') || ('A' <= c && c <= 'Z') || c == '_' {
            sanitized
        } else {
            let mut prefixed = String::from_str("generated_");
            prefixed.append(sanitized.as_str());
            prefixed
        }
    }
}

/// Every file of the generated crate, in writing order: schema, models,
/// types, migrations, `Cargo.toml`, `src/lib.rs`; the first generator error
/// stops it.
pub open spec fn spec_generate_crate(
    tables: Seq<TableDefV>,
    config: ConfigV,
    crate_name: Seq<char>,
) -> Result<Seq<GeneratedFileV>, GenErrorV> {
    match spec_generate_schema(tables, config) {
        Err(e) => Err(e),
        Ok(schema) => match spec_generate_models(tables, config) {
            Err(e) => Err(e),
            Ok(models) => match spec_generate_migrations(tables, config) {
                Err(e) => Err(e),
                Ok(migrations) => Ok(
                    schema + models + spec_generate_types(tables) + migrations + seq![
                        spec_generate_cargo_toml(tables, config, crate_name),
                        spec_generate_lib_rs(tables),
                    ],
                ),
            },
        },
    }
}

/// Generate every file of the output crate for `tables`: the schema, models,
/// types and migrations, then the crate scaffold that makes it buildable.
pub fn generate_crate(tables: &[TableDef], config: &Config, crate_name: &str) -> (r: Result<
    Vec<GeneratedFile>,
    GenError,
>)
    ensures
        match r {
            Ok(files) => spec_generate_crate(table_views(tables@), config@, crate_name@) == Ok::<
                Seq<GeneratedFileV>,
                GenErrorV,
            >(file_views(files@)),
            Err(e) => spec_generate_crate(table_views(tables@), config@, crate_name@) == Err::<
                Seq<GeneratedFileV>,
                GenErrorV,
            >(e@),
        },
{
    let mut files = match generate_schema(tables, config) {
        Ok(f) => f,
        Err(e) => return Err(e),
    };
    let mut models = match generate_models(tables, config) {
        Ok(f) => f,
        Err(e) => return Err(e),
    };
    let mut types = match generate_types(tables, config) {
        Ok(f) => f,
        Err(e) => return Err(e),
    };
    let mut migrations = match generate_migrations(tables, config) {
        Ok(f) => f,
        Err(e) => return Err(e),
    };
    let ghost a = file_views(files@);
    let ghost b = file_views(models@);
    let ghost c = file_views(types@);
    let ghost d = file_views(migrations@);
    files.append(&mut models);
    files.append(&mut types);
    files.append(&mut migrations);
    let cargo = generate_cargo_toml(tables, config, crate_name);
    let lib = generate_lib_rs(tables);
    let ghost e = seq![cargo@, lib@];
    files.push(cargo);
    files.push(lib);
    assert(file_views(files@) =~= a + b + c + d + e);
    Ok(files)
}

/// The derived crate name is never empty, starts with an ASCII letter or
/// `_`, and holds only ASCII letters, digits, `-` and `_`.
pub proof fn law_crate_name_is_valid(out: Seq<char>)
    ensures
        spec_crate_name(out).len() > 0,
        is_name_start(spec_crate_name(out)[0]),
        forall|i: int|
            0 <= i < spec_crate_name(out).len() ==> is_name_char(#[trigger] spec_crate_name(out)[i]),
{
    reveal_strlit("generated_diesel");
    reveal_strlit("generated_");
    let base = match path_file_name(out) {
        Some(b) => b,
        None => "generated_diesel"@,
    };
    let s = sanitize(base);
    assert forall|i: int| 0 <= i < s.len() implies is_name_char(#[trigger] s[i]) by {}
    assert forall|i: int| 0 <= i < "generated_diesel"@.len() implies is_name_char(#[trigger] "generated_diesel"@[i]) by {}
    if s.len() > 0 && !is_name_start(s[0]) {
        let p = "generated_"@ + s;
        assert forall|i: int| 0 <= i < p.len() implies is_name_char(#[trigger] p[i]) by {
            if i >= 10 {
                assert(p[i] == s[i - 10]);
            }
        }
    }
}

} // verus!
