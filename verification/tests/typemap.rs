use namma_diesel::config::{Config, TypeMapping};
use namma_diesel::ir::{FieldDef, TypeDef};
use namma_diesel::typemap::resolve;

fn field(name: &str, spec_type: &str, optional: bool) -> FieldDef {
    FieldDef {
        name: name.into(),
        spec_type: spec_type.into(),
        optional,
        db_type_override: None,
        default: None,
        constraints: vec![],
    }
}

fn mapping(rust: &str, diesel: &str, pg: &str, import: &str, krate: &str) -> TypeMapping {
    TypeMapping {
        rust: Some(rust.into()),
        diesel: Some(diesel.into()),
        pg: Some(pg.into()),
        import: Some(import.into()),
        krate: Some(krate.into()),
    }
}

/// A consuming project's registry (test data; the generator ships none).
fn project() -> Config {
    let mut c = Config::default();
    c.set_type(
        "UTCTime".into(),
        mapping(
            "DateTime<Utc>",
            "Timestamptz",
            "timestamptz",
            "chrono::{DateTime, Utc}",
            "chrono = { version = \"0.4\", features = [\"serde\"] }",
        ),
    );
    c.set_type(
        "HighPrecMoney".into(),
        mapping("Decimal", "Numeric", "numeric", "rust_decimal::Decimal", "rust_decimal = \"1\""),
    );
    c
}

#[test]
fn primitives_need_no_config() {
    let r = resolve(&field("x", "Text", false), &[], &Config::default()).unwrap();
    assert_eq!(r.rust_type, "String");
    assert_eq!(r.diesel_sql, "Varchar");
    assert_eq!(r.pg_type, "character varying(36)");
    assert_eq!(r.import, None);
    assert_eq!(resolve(&field("n", "Int", false), &[], &Config::default()).unwrap().rust_type, "i64");
}

#[test]
fn id_is_a_structural_rule() {
    let r = resolve(&field("driverId", "Id Person", false), &[], &Config::default()).unwrap();
    assert_eq!(r.column_name, "driver_id");
    assert_eq!(r.diesel_sql, "Varchar");
}

#[test]
fn custom_types_come_from_the_project_config() {
    let r = resolve(&field("fare", "HighPrecMoney", true), &[], &project()).unwrap();
    assert_eq!(r.rust_type, "Option<Decimal>");
    assert_eq!(r.diesel_sql, "Nullable<Numeric>");
    assert_eq!(r.import.as_deref(), Some("rust_decimal::Decimal"));
    assert_eq!(
        resolve(&field("t", "UTCTime", false), &[], &project()).unwrap().import.as_deref(),
        Some("chrono::{DateTime, Utc}")
    );
}

#[test]
fn generator_owns_no_custom_types() {
    // HighPrecMoney is unknown without a project config, by design.
    assert!(resolve(&field("fare", "HighPrecMoney", false), &[], &Config::default()).is_err());
}

#[test]
fn yaml_enum_imports_from_generated_crate() {
    let types = vec![TypeDef::Enum { name: "Status".into(), variants: vec!["NEW".into()] }];
    let r = resolve(&field("status", "Status", false), &types, &Config::default()).unwrap();
    assert_eq!(r.rust_type, "Status");
    assert_eq!(r.diesel_sql, "Varchar");
    assert_eq!(r.import.as_deref(), Some("crate::types::status::Status"));
}

#[test]
fn unknown_type_errors() {
    assert!(resolve(&field("x", "Wibble", false), &[], &Config::default()).is_err());
}

#[test]
fn partial_override_of_a_primitive_inherits() {
    // Only `pg` set: `rust`/`diesel` inherit from the Text primitive.
    let mut cfg = Config::default();
    cfg.set_type("Text".into(), TypeMapping { pg: Some("text".into()), ..TypeMapping::default() });
    let r = resolve(&field("x", "Text", false), &[], &cfg).unwrap();
    assert_eq!(r.pg_type, "text");
    assert_eq!(r.rust_type, "String");
    assert_eq!(r.diesel_sql, "Varchar");
}

#[test]
fn partial_entry_for_a_custom_type_errors() {
    // No primitive base to inherit from: all facets are required.
    let mut cfg = Config::default();
    cfg.set_type("Money".into(), TypeMapping { pg: Some("numeric".into()), ..TypeMapping::default() });
    assert!(resolve(&field("x", "Money", false), &[], &cfg).is_err());
}
