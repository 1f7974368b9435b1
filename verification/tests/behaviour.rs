use namma_diesel::cli::{crate_name_from, generate_crate};
use namma_diesel::codegen::{
    render_schema, generate_cargo_toml, generate_lib_rs, generate_migrations, generate_models, generate_schema,
    generate_types, GenError, GeneratedFile, KeyedGenerator,
};
use namma_diesel::config::{Config, TypeMapping};
use namma_diesel::ir::{Constraint, FieldDef, TableDef, TypeDef};
use namma_diesel::parser::{fields_with, inject_timestamps, parse_constraints, parse_spec, SpecError};
use namma_diesel::text::{decimal_str, pad4_str};
use namma_diesel::typemap::{resolve, resolve_named, Facet, ResolvedType, TypeError};
use namma_diesel::verify::{cargo_check_outcome, rustfmt_step, FmtStep, ToolRun};

const RIDE_YAML: &str = "Ride:
  tableName: ride
  fields:
    id: Id Ride
    status: Status
    fare: Maybe HighPrecMoney
    driverId: Id Person
  constraints:
    id: PrimaryKey
    driverId: SecondaryKey
  beamType:
    status: Text
  types:
    Status:
      - enum: \"NEW,INPROGRESS,COMPLETED,CANCELLED\"
      - derive: \"Show,Eq\"
";

const BOOKING_YAML: &str = "Booking:
  tableName: booking
  fields:
    id: Id Booking
    riderId: Id Person
    status: Text
    estimatedDistance: Maybe Int
  constraints:
    id: PrimaryKey
    riderId: SecondaryKey
";

fn plain_field(name: &str, spec_type: &str, optional: bool) -> FieldDef {
    FieldDef {
        name: name.into(),
        spec_type: spec_type.into(),
        optional,
        db_type_override: None,
        default: None,
        constraints: vec![],
    }
}

fn full_mapping(rust: &str, diesel: &str, pg: &str, import: &str, krate: Option<&str>) -> TypeMapping {
    TypeMapping {
        rust: Some(rust.into()),
        diesel: Some(diesel.into()),
        pg: Some(pg.into()),
        import: Some(import.into()),
        krate: krate.map(|k| k.to_string()),
    }
}

fn registry() -> Config {
    let mut c = Config::default();
    c.set_dependency("serde".into(), "{ version = \"1\", features = [\"derive\"] }".into());
    c.set_type(
        "UTCTime".into(),
        full_mapping(
            "DateTime<Utc>",
            "Timestamptz",
            "timestamptz",
            "chrono::{DateTime, Utc}",
            Some("chrono = { version = \"0.4\", features = [\"serde\"] }"),
        ),
    );
    c.set_type(
        "HighPrecMoney".into(),
        full_mapping(
            "Decimal",
            "Numeric",
            "numeric",
            "rust_decimal::Decimal",
            Some("rust_decimal = { version = \"1\", features = [\"db-diesel2-postgres\"] }"),
        ),
    );
    c
}

fn paths_of(files: &[GeneratedFile]) -> Vec<String> {
    files.iter().map(|f| f.path.clone()).collect()
}

fn contents_of<'a>(files: &'a [GeneratedFile], path: &str) -> &'a str {
    files
        .iter()
        .find(|f| f.path == path)
        .map(|f| f.contents.as_str())
        .unwrap_or_else(|| panic!("no generated file {path}"))
}

// ---------- spec parsing ----------

#[test]
fn invalid_yaml_is_rejected() {
    let e = parse_spec("Ride: [unclosed").unwrap_err();
    match &e {
        SpecError::InvalidYaml { detail } => assert!(!detail.is_empty()),
        other => panic!("unexpected error {other:?}"),
    }
    assert_eq!(e.message(), "spec is not valid YAML");
}

#[test]
fn top_level_sequence_is_rejected() {
    assert!(matches!(parse_spec("- a\n- b\n").unwrap_err(), SpecError::NotAMapping));
    assert!(matches!(parse_spec("just text").unwrap_err(), SpecError::NotAMapping));
}

#[test]
fn empty_mapping_is_rejected() {
    let e = parse_spec("{}").unwrap_err();
    assert!(matches!(e, SpecError::Empty));
    assert_eq!(e.message(), "spec is empty");
}

#[test]
fn table_name_must_be_a_string() {
    let e = parse_spec("7:\n  tableName: seven\n").unwrap_err();
    assert!(matches!(e, SpecError::TableNameNotString));
    assert_eq!(e.message(), "table name must be a string");
}

#[test]
fn body_must_be_a_mapping() {
    let e = parse_spec("Ride: 3\n").unwrap_err();
    match &e {
        SpecError::BodyNotMapping { table } => assert_eq!(table, "Ride"),
        other => panic!("unexpected error {other:?}"),
    }
    assert_eq!(e.message(), "body of `Ride` must be a mapping");
}

#[test]
fn field_names_and_types_must_be_strings() {
    let e = parse_spec("Ride:\n  fields:\n    12: Text\n").unwrap_err();
    assert!(matches!(e, SpecError::FieldNameNotString));
    assert_eq!(e.message(), "field name must be a string");

    let e = parse_spec("Ride:\n  fields:\n    id:\n      - Text\n").unwrap_err();
    match &e {
        SpecError::FieldTypeNotString { field } => assert_eq!(field, "id"),
        other => panic!("unexpected error {other:?}"),
    }
    assert_eq!(e.message(), "type of field `id` must be a string");
}

#[test]
fn type_names_must_be_strings() {
    let e = parse_spec("Ride:\n  types:\n    5:\n      - enum: \"A,B\"\n").unwrap_err();
    assert!(matches!(e, SpecError::TypeNameNotString));
    assert_eq!(e.message(), "type name must be a string");
}

#[test]
fn table_name_falls_back_to_snake_case() {
    let t = parse_spec("DriverInfo:\n  fields:\n    id: Id DriverInfo\n").unwrap();
    assert_eq!(t.name, "DriverInfo");
    assert_eq!(t.sql_table, "driver_info");
}

#[test]
fn maybe_and_relation_suffix_are_read_off_the_type() {
    let t = parse_spec("Trip:\n  fields:\n    riderId: Maybe Id Person|WithId\n    note: Text\n").unwrap();
    let rider = &t.fields[0];
    assert_eq!(rider.name, "riderId");
    assert_eq!(rider.spec_type, "Id Person");
    assert!(rider.optional);
    assert!(!t.fields[1].optional);
    assert_eq!(t.fields[1].spec_type, "Text");
}

#[test]
fn beam_type_default_and_constraints_attach_to_their_field() {
    let spec = "Trip:\n  fields:\n    id: Id Trip\n    status: Text\n  beamType:\n    status: Text\n  default:\n    status: \"'NEW'\"\n  constraints:\n    id: PrimaryKey|SecondaryKey\n";
    let t = parse_spec(spec).unwrap();
    let status = &t.fields[1];
    assert_eq!(status.db_type_override.as_deref(), Some("Text"));
    assert_eq!(status.default.as_deref(), Some("'NEW'"));
    assert_eq!(t.fields[0].constraints, vec![Constraint::PrimaryKey, Constraint::SecondaryKey]);
    assert_eq!(t.primary_key, vec!["id"]);
    assert_eq!(t.secondary_keys, vec!["id"]);
}

#[test]
fn every_parsed_table_carries_both_timestamps_once() {
    let plain = parse_spec("T:\n  fields:\n    id: Id T\n").unwrap();
    let names: Vec<&str> = plain.fields.iter().map(|f| f.name.as_str()).collect();
    assert_eq!(names, vec!["id", "createdAt", "updatedAt"]);
    assert_eq!(plain.fields[1].spec_type, "UTCTime");
    assert_eq!(plain.fields[1].default.as_deref(), Some("CURRENT_TIMESTAMP"));

    // A spec that declares one itself keeps its own and gains only the other.
    let own = parse_spec("T:\n  fields:\n    createdAt: Int\n    id: Id T\n").unwrap();
    let names: Vec<&str> = own.fields.iter().map(|f| f.name.as_str()).collect();
    assert_eq!(names, vec!["createdAt", "id", "updatedAt"]);
    assert_eq!(own.fields[0].spec_type, "Int");
    // A declared timestamp without a `default:` entry is filled by the database.
    assert_eq!(own.fields[0].default.as_deref(), Some("CURRENT_TIMESTAMP"));
    assert_eq!(own.fields[1].default, None);
}

#[test]
fn injecting_timestamps_twice_changes_nothing() {
    let mut fields = vec![plain_field("id", "Id T", false)];
    inject_timestamps(&mut fields);
    assert_eq!(fields.len(), 3);
    inject_timestamps(&mut fields);
    assert_eq!(fields.len(), 3);
    assert_eq!(fields[2].name, "updatedAt");
}

#[test]
fn constraint_lists_keep_known_words_only() {
    assert_eq!(
        parse_constraints(" SecondaryKey | Unique |PrimaryKey"),
        vec![Constraint::SecondaryKey, Constraint::PrimaryKey]
    );
    assert_eq!(parse_constraints("primarykey"), vec![]);
    assert_eq!(parse_constraints(""), vec![]);
}

#[test]
fn key_lists_follow_field_order() {
    let mut a = plain_field("b", "Int", false);
    a.constraints = vec![Constraint::PrimaryKey];
    let b = plain_field("c", "Int", false);
    let mut c = plain_field("a", "Int", false);
    c.constraints = vec![Constraint::SecondaryKey, Constraint::PrimaryKey];
    let fields = vec![a, b, c];
    assert_eq!(fields_with(&fields, Constraint::PrimaryKey), vec!["b", "a"]);
    assert_eq!(fields_with(&fields, Constraint::SecondaryKey), vec!["a"]);
}

#[test]
fn enum_variants_are_trimmed_and_non_enum_types_skipped() {
    let spec = "T:\n  fields:\n    id: Id T\n  types:\n    Kind:\n      - derive: \"Eq\"\n      - enum: \" A , B \"\n    Alias: Text\n";
    let t = parse_spec(spec).unwrap();
    assert_eq!(t.types.len(), 1);
    let TypeDef::Enum { name, variants } = &t.types[0];
    assert_eq!(name, "Kind");
    assert_eq!(variants, &["A", "B"]);
}

// ---------- type resolution ----------

#[test]
fn optional_wraps_rust_and_diesel_but_not_pg() {
    let plain = resolve(&plain_field("total", "Int", false), &[], &Config::default()).unwrap();
    let maybe = resolve(&plain_field("total", "Int", true), &[], &Config::default()).unwrap();
    assert_eq!(plain.rust_type, "i64");
    assert_eq!(maybe.rust_type, "Option<i64>");
    assert_eq!(plain.diesel_sql, "Int8");
    assert_eq!(maybe.diesel_sql, "Nullable<Int8>");
    assert_eq!(plain.pg_type, "bigint");
    assert_eq!(maybe.pg_type, "bigint");
}

#[test]
fn bool_and_double_primitives() {
    let b = resolve(&plain_field("isActive", "Bool", false), &[], &Config::default()).unwrap();
    assert_eq!((b.column_name.as_str(), b.rust_type.as_str()), ("is_active", "bool"));
    assert_eq!((b.diesel_sql.as_str(), b.pg_type.as_str()), ("Bool", "boolean"));
    let d = resolve(&plain_field("lat", "Double", false), &[], &Config::default()).unwrap();
    assert_eq!((d.rust_type.as_str(), d.diesel_sql.as_str()), ("f64", "Float8"));
    assert_eq!(d.pg_type, "double precision");
}

#[test]
fn spec_enum_wins_over_config_and_id() {
    let types = vec![TypeDef::Enum { name: "TripStatus".into(), variants: vec!["A".into()] }];
    let mut cfg = Config::default();
    cfg.set_type("TripStatus".into(), full_mapping("X", "Y", "z", "x::X", None));
    let r = resolve(&plain_field("status", "TripStatus", true), &types, &cfg).unwrap();
    assert_eq!(r.rust_type, "Option<TripStatus>");
    assert_eq!(r.diesel_sql, "Nullable<Varchar>");
    assert_eq!(r.import.as_deref(), Some("crate::types::trip_status::TripStatus"));
}

#[test]
fn config_entry_overrides_a_primitive_fully() {
    let mut cfg = Config::default();
    cfg.set_type("Int".into(), full_mapping("i32", "Int4", "integer", "core::primitive::i32", None));
    let r = resolve(&plain_field("n", "Int", false), &[], &cfg).unwrap();
    assert_eq!(r.rust_type, "i32");
    assert_eq!(r.diesel_sql, "Int4");
    assert_eq!(r.pg_type, "integer");
    assert_eq!(r.import.as_deref(), Some("core::primitive::i32"));
}

#[test]
fn missing_facet_names_the_first_absent_one() {
    let mut cfg = Config::default();
    cfg.set_type(
        "Money".into(),
        TypeMapping { rust: Some("Decimal".into()), pg: Some("numeric".into()), ..TypeMapping::default() },
    );
    let e = resolve(&plain_field("x", "Money", false), &[], &cfg).unwrap_err();
    match &e {
        TypeError::MissingFacet { spec_type, facet } => {
            assert_eq!(spec_type, "Money");
            assert_eq!(*facet, Facet::Diesel);
        }
        other => panic!("unexpected error {other:?}"),
    }
    assert_eq!(e.message(), "type `Money` in config has no `diesel` (and is not a primitive)");
}

#[test]
fn unknown_type_names_type_and_field() {
    let e = resolve(&plain_field("fareAmount", "HighPrecMoney", false), &[], &Config::default()).unwrap_err();
    match &e {
        TypeError::UnknownType { spec_type, field } => {
            assert_eq!(spec_type, "HighPrecMoney");
            assert_eq!(field, "fareAmount");
        }
        other => panic!("unexpected error {other:?}"),
    }
    assert_eq!(
        e.message(),
        "unknown type `HighPrecMoney` (field `fareAmount`): not a primitive or a spec `types:` entry \u{2014} add it to [types] in your project config"
    );
}

// ---------- the project config ----------

#[test]
fn setting_a_type_twice_keeps_the_last_mapping() {
    let mut cfg = Config::default();
    cfg.set_type("Money".into(), full_mapping("A", "B", "c", "a::A", None));
    cfg.set_type("Other".into(), full_mapping("O", "P", "q", "o::O", None));
    cfg.set_type("Money".into(), full_mapping("Decimal", "Numeric", "numeric", "rust_decimal::Decimal", None));
    assert_eq!(cfg.type_mapping("Money").unwrap().rust.as_deref(), Some("Decimal"));
    assert_eq!(cfg.type_mapping("Other").unwrap().rust.as_deref(), Some("O"));
    assert!(cfg.type_mapping("Missing").is_none());
    let r = resolve(&plain_field("m", "Money", false), &[], &cfg).unwrap();
    assert_eq!(r.pg_type, "numeric");
}

// ---------- generators ----------

#[test]
fn missing_primary_key_fails_every_keyed_generator() {
    let t = parse_spec("Loose:\n  fields:\n    note: Text\n").unwrap();
    let tables = [t];
    for (r, want, text) in [
        (
            generate_schema(&tables, &Config::default()),
            KeyedGenerator::Schema,
            "table `Loose` has no primary key (diesel::table! requires one)",
        ),
        (
            generate_models(&tables, &Config::default()),
            KeyedGenerator::Models,
            "table `Loose` has no primary key",
        ),
        (
            generate_migrations(&tables, &Config::default()),
            KeyedGenerator::Migrations,
            "table `Loose` has no primary key",
        ),
    ] {
        let e = r.unwrap_err();
        assert_eq!(e.message(), text);
        match e {
            GenError::NoPrimaryKey { table, generator } => {
                assert_eq!(table, "Loose");
                assert_eq!(generator, want);
            }
            other => panic!("unexpected error {other:?}"),
        }
    }
    let e = generate_crate(&tables, &Config::default(), "loose").unwrap_err();
    assert_eq!(e.message(), "table `Loose` has no primary key (diesel::table! requires one)");
}

#[test]
fn unresolved_type_fails_generation_with_its_error() {
    let ride = parse_spec(RIDE_YAML).unwrap();
    match generate_schema(&[ride], &Config::default()).unwrap_err() {
        GenError::Type(TypeError::UnknownType { spec_type, field }) => {
            assert_eq!(spec_type, "HighPrecMoney");
            assert_eq!(field, "fare");
        }
        other => panic!("unexpected error {other:?}"),
    }
}

#[test]
fn file_layout_of_two_tables() {
    let ride = parse_spec(RIDE_YAML).unwrap();
    let booking = parse_spec(BOOKING_YAML).unwrap();
    let tables = [ride, booking];
    let cfg = registry();
    assert_eq!(
        paths_of(&generate_schema(&tables, &cfg).unwrap()),
        vec!["src/schema/ride.rs", "src/schema/booking.rs", "src/schema/mod.rs"]
    );
    assert_eq!(
        paths_of(&generate_models(&tables, &cfg).unwrap()),
        vec!["src/models/ride.rs", "src/models/booking.rs", "src/models/mod.rs"]
    );
    assert_eq!(
        paths_of(&generate_migrations(&tables, &cfg).unwrap()),
        vec![
            "migrations/0001_create_ride/up.sql",
            "migrations/0001_create_ride/down.sql",
            "migrations/0002_create_booking/up.sql",
            "migrations/0002_create_booking/down.sql",
        ]
    );
    assert_eq!(
        paths_of(&generate_types(&tables, &cfg).unwrap()),
        vec!["src/types/status.rs", "src/types/mod.rs"]
    );
    let all = generate_crate(&tables, &cfg, "demo").unwrap();
    assert_eq!(all.len(), 3 + 3 + 2 + 4 + 2);
    assert_eq!(all[all.len() - 2].path, "Cargo.toml");
    assert_eq!(all[all.len() - 1].path, "src/lib.rs");
    assert_eq!(
        contents_of(&all, "src/models/mod.rs"),
        "pub mod ride;\npub mod booking;\n"
    );
}

#[test]
fn insert_struct_leaves_timestamps_to_the_database() {
    let booking = parse_spec(BOOKING_YAML).unwrap();
    let files = generate_models(&[booking], &registry()).unwrap();
    let model = contents_of(&files, "src/models/booking.rs");
    let insert = &model[model.find("pub struct NewBooking").unwrap()..];
    assert!(insert.contains("pub id: String,"));
    assert!(insert.contains("pub estimated_distance: Option<i64>,"));
    assert!(!insert.contains("created_at"));
    assert!(!insert.contains("updated_at"));
    let row = &model[..model.find("pub struct NewBooking").unwrap()];
    assert!(row.contains("pub created_at: DateTime<Utc>,"));
}

#[test]
fn model_imports_each_path_once() {
    let spec = "Pay:\n  fields:\n    id: Id Pay\n    amount: HighPrecMoney\n    tip: Maybe HighPrecMoney\n  constraints:\n    id: PrimaryKey\n";
    let t = parse_spec(spec).unwrap();
    let files = generate_models(&[t], &registry()).unwrap();
    let model = contents_of(&files, "src/models/pay.rs");
    assert_eq!(model.matches("use rust_decimal::Decimal;").count(), 1);
    assert_eq!(model.matches("use chrono::{DateTime, Utc};").count(), 1);
}

#[test]
fn shared_enum_module_is_listed_once() {
    let a = "A:\n  fields:\n    id: Id A\n  constraints:\n    id: PrimaryKey\n  types:\n    Status:\n      - enum: \"X,Y\"\n";
    let b = "B:\n  fields:\n    id: Id B\n  constraints:\n    id: PrimaryKey\n  types:\n    Status:\n      - enum: \"X,Y\"\n";
    let tables = [parse_spec(a).unwrap(), parse_spec(b).unwrap()];
    let files = generate_types(&tables, &Config::default()).unwrap();
    assert_eq!(
        paths_of(&files),
        vec!["src/types/status.rs", "src/types/status.rs", "src/types/mod.rs"]
    );
    assert_eq!(contents_of(&files, "src/types/mod.rs"), "pub mod status;\n");
}

#[test]
fn column_defaults_reach_the_migration() {
    let spec = "Trip:\n  fields:\n    id: Id Trip\n    status: Text\n  default:\n    status: \"'NEW'\"\n  constraints:\n    id: PrimaryKey\n";
    let t = parse_spec(spec).unwrap();
    let files = generate_migrations(&[t], &utc_only()).unwrap();
    let up = contents_of(&files, "migrations/0001_create_trip/up.sql");
    assert!(up.contains("    status character varying(36) NOT NULL DEFAULT 'NEW',\n"));
}

/// Only the timestamp type the injected fields need.
fn utc_only() -> Config {
    let mut c = Config::default();
    c.set_type(
        "UTCTime".into(),
        full_mapping("DateTime<Utc>", "Timestamptz", "timestamptz", "chrono::{DateTime, Utc}", None),
    );
    c
}

#[test]
fn cargo_toml_exact_and_sorted() {
    let ride = parse_spec(RIDE_YAML).unwrap();
    let f = generate_cargo_toml(&[ride], &registry(), "demo");
    assert_eq!(f.path, "Cargo.toml");
    assert_eq!(
        f.contents,
        "[package]
name = \"demo\"
version = \"0.1.0\"
edition = \"2021\"

[dependencies]
chrono = { version = \"0.4\", features = [\"serde\"] }
diesel = { version = \"2\", features = [\"postgres_backend\"] }
rust_decimal = { version = \"1\", features = [\"db-diesel2-postgres\"] }
serde = { version = \"1\", features = [\"derive\"] }
"
    );
}

#[test]
fn base_dependencies_win_over_type_crates() {
    let mut cfg = registry();
    cfg.set_dependency("chrono".into(), "\"0.4.30\"".into());
    cfg.set_dependency("diesel".into(), "\"2.1\"".into());
    let booking = parse_spec(BOOKING_YAML).unwrap();
    let f = generate_cargo_toml(&[booking], &cfg, "demo");
    assert!(f.contents.ends_with(
        "[dependencies]\nchrono = \"0.4.30\"\ndiesel = \"2.1\"\nserde = { version = \"1\", features = [\"derive\"] }\n"
    ));
}

#[test]
fn lib_rs_exact() {
    let booking = parse_spec(BOOKING_YAML).unwrap();
    let f = generate_lib_rs(&[booking]);
    assert_eq!(f.path, "src/lib.rs");
    assert_eq!(f.contents, "pub mod schema;\npub mod models;\n");
    let ride = parse_spec(RIDE_YAML).unwrap();
    assert_eq!(generate_lib_rs(&[ride]).contents, "pub mod schema;\npub mod models;\npub mod types;\n");
}

#[test]
fn no_tables_give_empty_module_lists_and_the_scaffold() {
    let tables: [TableDef; 0] = [];
    let all = generate_crate(&tables, &Config::default(), "empty").unwrap();
    assert_eq!(
        paths_of(&all),
        vec!["src/schema/mod.rs", "src/models/mod.rs", "Cargo.toml", "src/lib.rs"]
    );
    assert_eq!(contents_of(&all, "src/models/mod.rs"), "\n");
}

// ---------- crate name and numbering ----------

#[test]
fn crate_name_is_the_sanitized_basename() {
    assert_eq!(crate_name_from("/tmp/gen/ride-service"), "ride-service");
    assert_eq!(crate_name_from("/tmp/my out!"), "my_out_");
    assert_eq!(crate_name_from("out/"), "out");
    assert_eq!(crate_name_from("caf\u{e9}"), "caf_");
    assert_eq!(crate_name_from("_private"), "_private");
}

#[test]
fn crate_name_never_starts_with_a_digit_or_dash() {
    assert_eq!(crate_name_from("/tmp/2024-out"), "generated_2024-out");
    assert_eq!(crate_name_from("-x"), "generated_-x");
    assert_eq!(crate_name_from("out/9"), "generated_9");
}

#[test]
fn crate_name_falls_back_without_a_basename() {
    assert_eq!(crate_name_from(""), "generated_diesel");
    assert_eq!(crate_name_from("/"), "generated_diesel");
    assert_eq!(crate_name_from("gen/.."), "generated_diesel");
}

#[test]
fn migration_numbers_are_zero_padded() {
    assert_eq!(pad4_str(1), "0001");
    assert_eq!(pad4_str(42), "0042");
    assert_eq!(pad4_str(12345), "12345");
    assert_eq!(decimal_str(0), "0");
    assert_eq!(decimal_str(907), "907");
}

#[test]
fn enum_import_points_at_the_generated_module() {
    let spec = "Trip:\n  fields:\n    id: Id Trip\n    tripStatus: TripStatus\n  constraints:\n    id: PrimaryKey\n  types:\n    TripStatus:\n      - enum: \"OPEN,CLOSED\"\n";
    let trip = parse_spec(spec).unwrap();
    let r = resolve(&trip.fields[1], &trip.types, &Config::default()).unwrap();
    assert_eq!(r.import.as_deref(), Some("crate::types::trip_status::TripStatus"));
    let files = generate_types(&[trip], &Config::default()).unwrap();
    assert_eq!(paths_of(&files), vec!["src/types/trip_status.rs", "src/types/mod.rs"]);
    assert_eq!(contents_of(&files, "src/types/mod.rs"), "pub mod trip_status;\n");
}

#[test]
fn list_types_map_to_vec_array_and_sql_arrays() {
    let r = resolve(&plain_field("tags", "[Text]", false), &[], &Config::default()).unwrap();
    assert_eq!(r.rust_type, "Vec<String>");
    assert_eq!(r.diesel_sql, "Array<Varchar>");
    assert_eq!(r.pg_type, "character varying(36)[]");
    assert_eq!(r.import, None);
    let m = resolve(&plain_field("counts", "[Int]", true), &[], &Config::default()).unwrap();
    assert_eq!(m.rust_type, "Option<Vec<i64>>");
    assert_eq!(m.diesel_sql, "Nullable<Array<Int8>>");
    assert_eq!(m.pg_type, "bigint[]");
    let types = vec![TypeDef::Enum { name: "Status".into(), variants: vec!["A".into()] }];
    let e = resolve(&plain_field("history", "[Status]", false), &types, &Config::default()).unwrap();
    assert_eq!(e.rust_type, "Vec<Status>");
    assert_eq!(e.import.as_deref(), Some("crate::types::status::Status"));
}

#[test]
fn unknown_list_element_is_named_in_the_error() {
    match resolve(&plain_field("fares", "[HighPrecMoney]", false), &[], &Config::default()).unwrap_err() {
        TypeError::UnknownType { spec_type, field } => {
            assert_eq!(spec_type, "HighPrecMoney");
            assert_eq!(field, "fares");
        }
        other => panic!("unexpected error {other:?}"),
    }
}

#[test]
fn list_of_a_config_type_brings_its_crate() {
    let spec = "Pay:\n  fields:\n    id: Id Pay\n    splits: \"[HighPrecMoney]\"\n  constraints:\n    id: PrimaryKey\n";
    let t = parse_spec(spec).unwrap();
    assert_eq!(t.fields[1].spec_type, "[HighPrecMoney]");
    let files = generate_models(std::slice::from_ref(&t), &registry()).unwrap();
    assert!(contents_of(&files, "src/models/pay.rs").contains("pub splits: Vec<Decimal>,"));
    let f = generate_cargo_toml(&[t], &registry(), "pay");
    assert!(f.contents.contains("rust_decimal = { version = \"1\""));
}

#[test]
fn resolve_named_uses_the_given_names() {
    let r = resolve_named(
        &plain_field("driverId", "Id Person", true),
        &[],
        &Config::default(),
        "driver_id".to_string(),
        "unused",
    )
    .unwrap();
    assert_eq!(r.column_name, "driver_id");
    assert_eq!(r.rust_type, "Option<String>");
    let types = vec![TypeDef::Enum { name: "RideStatus".into(), variants: vec!["A".into()] }];
    let e = resolve_named(
        &plain_field("status", "RideStatus", false),
        &types,
        &Config::default(),
        "status".to_string(),
        "ride_status",
    )
    .unwrap();
    assert_eq!(e.import.as_deref(), Some("crate::types::ride_status::RideStatus"));
}

#[test]
fn declared_timestamp_gets_the_database_default() {
    let spec = "Ride:\n  tableName: ride\n  fields:\n    id: Id Ride\n    createdAt: UTCTime\n  constraints:\n    id: PrimaryKey\n";
    let t = parse_spec(spec).unwrap();
    let files = generate_migrations(&[t], &utc_only()).unwrap();
    assert!(files[0]
        .contents
        .contains("created_at timestamptz NOT NULL DEFAULT CURRENT_TIMESTAMP"));
}

#[test]
fn rustfmt_outcomes() {
    assert!(matches!(rustfmt_step("src/a.rs", &ToolRun::Succeeded), FmtStep::Next));
    match rustfmt_step("src/a.rs", &ToolRun::Failed { stderr: "  bad token\n".into() }) {
        FmtStep::Warn { message } => assert_eq!(message, "warning: rustfmt failed on src/a.rs: bad token"),
        other => panic!("unexpected step {other:?}"),
    }
    match rustfmt_step("src/a.rs", &ToolRun::NotFound) {
        FmtStep::StopAll { message } => {
            assert_eq!(message, "warning: rustfmt not found; skipping formatting")
        }
        other => panic!("unexpected step {other:?}"),
    }
    match rustfmt_step("src/a.rs", &ToolRun::SpawnFailed { message: "denied".into() }) {
        FmtStep::Fail { message } => assert_eq!(message, "failed to run rustfmt: denied"),
        other => panic!("unexpected step {other:?}"),
    }
}

#[test]
fn cargo_check_outcomes() {
    assert_eq!(cargo_check_outcome(&ToolRun::Succeeded), Ok(()));
    assert_eq!(
        cargo_check_outcome(&ToolRun::Failed { stderr: "\nerror[E0425]\n\n".into() }),
        Err("generated crate failed `cargo check`:\nerror[E0425]".to_string())
    );
    assert_eq!(
        cargo_check_outcome(&ToolRun::NotFound),
        Err("cargo not found; cannot verify the generated crate (pass --no-verify to skip)".to_string())
    );
    assert_eq!(
        cargo_check_outcome(&ToolRun::SpawnFailed { message: "denied".into() }),
        Err("failed to run cargo check: denied".to_string())
    );
}

#[test]
fn schema_block_from_given_columns() {
    let rs = vec![
        ResolvedType {
            column_name: "ride_id".into(),
            rust_type: "String".into(),
            diesel_sql: "Varchar".into(),
            pg_type: "character varying(36)".into(),
            import: None,
        },
        ResolvedType {
            column_name: "tags".into(),
            rust_type: "Vec<String>".into(),
            diesel_sql: "Array<Varchar>".into(),
            pg_type: "character varying(36)[]".into(),
            import: None,
        },
    ];
    assert_eq!(
        render_schema("ride_booking", "ride_id", &rs),
        "diesel::table! {\n    ride_booking (ride_id) {\n        ride_id -> Varchar,\n        tags -> Array<Varchar>,\n    }\n}\n"
    );
}

#[test]
fn first_used_crate_line_wins_for_a_crate_name() {
    let mut cfg = utc_only();
    cfg.set_type(
        "Money".into(),
        full_mapping("Decimal", "Numeric", "numeric", "rust_decimal::Decimal", Some("rust_decimal = \"1.30\"")),
    );
    cfg.set_type(
        "Rate".into(),
        full_mapping("Decimal", "Numeric", "numeric", "rust_decimal::Decimal", Some("rust_decimal = \"1.20\"")),
    );
    let spec = "Pay:\n  fields:\n    id: Id Pay\n    rate: Rate\n    amount: Money\n  constraints:\n    id: PrimaryKey\n";
    let t = parse_spec(spec).unwrap();
    let f = generate_cargo_toml(&[t], &cfg, "pay");
    assert!(f.contents.contains("rust_decimal = \"1.20\"\n"));
    assert!(!f.contents.contains("1.30"));
}
