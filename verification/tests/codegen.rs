use namma_diesel::codegen::{
    generate_cargo_toml, generate_lib_rs, generate_migrations, generate_models, generate_schema,
    generate_types, GeneratedFile,
};
use namma_diesel::config::{Config, TypeMapping};
use namma_diesel::parser::parse_spec;

/// The Ride storage spec of the project's examples.
const RIDE_YAML: &str = "Ride:
  tableName: ride
  fields:
    id: Id Ride
    status: Status
    fare: Maybe HighPrecMoney
    driverId: Id Person
  constraints:
    id: PrimaryKey
    driverId: SecondaryKey
  beamType:
    status: Text
  types:
    Status:
      - enum: \"NEW,INPROGRESS,COMPLETED,CANCELLED\"
      - derive: \"Show,Eq\"
";

/// A second spec with no `types:` block and no custom field types.
const BOOKING_YAML: &str = "Booking:
  tableName: booking
  fields:
    id: Id Booking
    riderId: Id Person
    status: Text
    estimatedDistance: Maybe Int
  constraints:
    id: PrimaryKey
    riderId: SecondaryKey
";

fn mapping(rust: &str, diesel: &str, pg: &str, import: &str) -> TypeMapping {
    TypeMapping {
        rust: Some(rust.into()),
        diesel: Some(diesel.into()),
        pg: Some(pg.into()),
        import: Some(import.into()),
        krate: None,
    }
}

/// A consuming project's config (test data; the generator ships none).
fn config() -> Config {
    let mut c = Config::default();
    c.set_type(
        "UTCTime".into(),
        mapping("DateTime<Utc>", "Timestamptz", "timestamptz", "chrono::{DateTime, Utc}"),
    );
    c.set_type(
        "HighPrecMoney".into(),
        mapping("Decimal", "Numeric", "numeric", "rust_decimal::Decimal"),
    );
    c
}

fn file_ending<'a>(files: &'a [GeneratedFile], suffix: &str) -> &'a GeneratedFile {
    files
        .iter()
        .find(|f| f.path.ends_with(suffix))
        .unwrap_or_else(|| panic!("no generated file ending in {suffix}"))
}

#[test]
fn renders_single_table_schema() {
    let ride = parse_spec(RIDE_YAML).unwrap();
    let files = generate_schema(&[ride], &config()).unwrap();
    assert_eq!(
        file_ending(&files, "schema/ride.rs").contents,
        "diesel::table! {
    ride (id) {
        id -> Varchar,
        status -> Varchar,
        fare -> Nullable<Numeric>,
        driver_id -> Varchar,
        created_at -> Timestamptz,
        updated_at -> Timestamptz,
    }
}
"
    );
}

#[test]
fn renders_common_mod_with_rules() {
    let ride = parse_spec(RIDE_YAML).unwrap();
    let booking = parse_spec(BOOKING_YAML).unwrap();
    let files = generate_schema(&[ride, booking], &config()).unwrap();

    // both per-table files exist
    assert!(files.iter().any(|f| f.path.ends_with("ride.rs")));
    assert!(files.iter().any(|f| f.path.ends_with("booking.rs")));
    assert_eq!(
        file_ending(&files, "schema/mod.rs").contents,
        "pub mod ride;
pub mod booking;

diesel::allow_tables_to_appear_in_same_query!(
    ride,
    booking,
);
"
    );
}

#[test]
fn no_primary_key_errors() {
    // No `constraints:` -> empty primary_key -> hard error.
    let table = parse_spec("NoPk:\n  tableName: no_pk\n  fields:\n    name: Text\n").unwrap();
    assert!(generate_schema(&[table], &Config::default()).is_err());
}

#[test]
fn composite_primary_key_in_header() {
    let spec = "Ledger:\n  tableName: ledger\n  fields:\n    accountId: Id Account\n    version: Int\n  constraints:\n    accountId: PrimaryKey\n    version: PrimaryKey\n";
    let table = parse_spec(spec).unwrap();
    // injected created_at/updated_at are UTCTime -> need the project config.
    let files = generate_schema(&[table], &config()).unwrap();
    let schema = file_ending(&files, "schema/ledger.rs");
    assert!(schema.contents.contains("ledger (account_id, version)"));
}

#[test]
fn renders_ride_model() {
    let ride = parse_spec(RIDE_YAML).unwrap();
    let files = generate_models(&[ride], &config()).unwrap();
    let model = file_ending(&files, "models/ride.rs");
    assert_eq!(
        model.contents,
        "use diesel::prelude::*;
use crate::schema::ride;
use crate::types::status::Status;
use rust_decimal::Decimal;
use chrono::{DateTime, Utc};

#[derive(Debug, Clone, Queryable, Selectable, Identifiable)]
#[diesel(table_name = ride)]
#[diesel(check_for_backend(diesel::pg::Pg))]
pub struct Ride {
    pub id: String,
    pub status: Status,
    pub fare: Option<Decimal>,
    pub driver_id: String,
    pub created_at: DateTime<Utc>,
    pub updated_at: DateTime<Utc>,
}

#[derive(Debug, Clone, Insertable)]
#[diesel(table_name = ride)]
pub struct NewRide {
    pub id: String,
    pub status: Status,
    pub fare: Option<Decimal>,
    pub driver_id: String,
}
"
    );

    assert!(model.contents.contains("pub struct Ride {"));
    assert!(model.contents.contains("pub struct NewRide {"));
    // NewRide excludes the auto-injected timestamps; the row struct keeps them.
    let new_struct = model.contents.split("pub struct NewRide").nth(1).unwrap();
    assert!(!new_struct.contains("created_at"));
    assert!(!new_struct.contains("updated_at"));
    assert!(model.contents.contains("created_at"));
    // mod.rs declares the module
    assert!(files
        .iter()
        .any(|f| f.path.ends_with("models/mod.rs") && f.contents.contains("pub mod ride;")));
}

#[test]
fn renders_booking_model_no_custom_types() {
    let booking = parse_spec(BOOKING_YAML).unwrap();
    let files = generate_models(&[booking], &config()).unwrap();
    assert_eq!(
        file_ending(&files, "models/booking.rs").contents,
        "use diesel::prelude::*;
use crate::schema::booking;
use chrono::{DateTime, Utc};

#[derive(Debug, Clone, Queryable, Selectable, Identifiable)]
#[diesel(table_name = booking)]
#[diesel(check_for_backend(diesel::pg::Pg))]
pub struct Booking {
    pub id: String,
    pub rider_id: String,
    pub status: String,
    pub estimated_distance: Option<i64>,
    pub created_at: DateTime<Utc>,
    pub updated_at: DateTime<Utc>,
}

#[derive(Debug, Clone, Insertable)]
#[diesel(table_name = booking)]
pub struct NewBooking {
    pub id: String,
    pub rider_id: String,
    pub status: String,
    pub estimated_distance: Option<i64>,
}
"
    );
}

#[test]
fn renders_enum_type() {
    let ride = parse_spec(RIDE_YAML).unwrap();
    let files = generate_types(&[ride], &Config::default()).unwrap();
    let status = file_ending(&files, "types/status.rs");
    assert!(status.contents.contains(
        "pub enum Status {
    NEW,
    INPROGRESS,
    COMPLETED,
    CANCELLED,
}"
    ));
    assert!(status.contents.contains("Status::INPROGRESS => \"INPROGRESS\","));
    assert!(status.contents.contains("\"CANCELLED\" => Ok(Status::CANCELLED),"));

    // FromSql errors (never panics) on an unknown value; the Err arm is present.
    assert!(status.contents.contains("unknown Status value"));
    assert!(status.contents.contains("#[allow(non_camel_case_types)]"));
    assert!(status.contents.contains("impl FromSql<Text, Pg> for Status"));
    // mod.rs declares the module
    assert!(files
        .iter()
        .any(|f| f.path.ends_with("types/mod.rs") && f.contents.contains("pub mod status;")));
}

#[test]
fn no_types_block_produces_no_files() {
    // Booking has no `types:` block -> no type files at all.
    let booking = parse_spec(BOOKING_YAML).unwrap();
    let files = generate_types(&[booking], &Config::default()).unwrap();
    assert!(files.is_empty());
}

#[test]
fn renders_ride_migration() {
    let ride = parse_spec(RIDE_YAML).unwrap();
    let files = generate_migrations(&[ride], &config()).unwrap();
    let up = file_ending(&files, "up.sql");
    assert_eq!(
        up.contents,
        "CREATE TABLE ride (
    id character varying(36) PRIMARY KEY,
    status character varying(36) NOT NULL,
    fare numeric,
    driver_id character varying(36) NOT NULL,
    created_at timestamptz NOT NULL DEFAULT CURRENT_TIMESTAMP,
    updated_at timestamptz NOT NULL DEFAULT CURRENT_TIMESTAMP
);
CREATE INDEX idx_ride_driver_id ON ride (driver_id);
"
    );

    // single-column PK is inline; `fare` is nullable (no NOT NULL).
    assert!(up.contents.contains("id character varying(36) PRIMARY KEY"));
    assert!(up.contents.contains("fare numeric"));
    assert!(!up.contents.contains("fare numeric NOT NULL"));
    // timestamps self-default so inserts that omit them satisfy NOT NULL.
    assert!(up
        .contents
        .contains("created_at timestamptz NOT NULL DEFAULT CURRENT_TIMESTAMP"));
    // secondary key -> index.
    assert!(up
        .contents
        .contains("CREATE INDEX idx_ride_driver_id ON ride (driver_id);"));

    let down = file_ending(&files, "down.sql");
    assert_eq!(down.contents.trim(), "DROP TABLE ride;");
    // dir is the zero-padded sequence number.
    assert!(files.iter().any(|f| f.path.contains("0001_create_ride")));
}

#[test]
fn composite_pk_migration_is_table_level() {
    let spec = "Ledger:\n  tableName: ledger\n  fields:\n    accountId: Id Account\n    version: Int\n  constraints:\n    accountId: PrimaryKey\n    version: PrimaryKey\n";
    let table = parse_spec(spec).unwrap();
    let files = generate_migrations(&[table], &config()).unwrap();
    let up = file_ending(&files, "up.sql");
    assert!(up.contents.contains("PRIMARY KEY (account_id, version)"));
    // no inline PRIMARY KEY on any column when the key is composite.
    assert!(!up.contents.contains("account_id character varying(36) PRIMARY KEY"));
}

/// A project config with a `[cargo.dependencies]` base and custom-type crates.
fn project_config() -> Config {
    let mut c = Config::default();
    c.set_dependency("serde".into(), "{ version = \"1\", features = [\"derive\"] }".into());
    c.set_type(
        "UTCTime".into(),
        TypeMapping {
            krate: Some("chrono = { version = \"0.4\", features = [\"serde\"] }".into()),
            ..mapping("DateTime<Utc>", "Timestamptz", "timestamptz", "chrono::{DateTime, Utc}")
        },
    );
    c.set_type(
        "HighPrecMoney".into(),
        TypeMapping {
            krate: Some(
                "rust_decimal = { version = \"1\", features = [\"db-diesel2-postgres\"] }".into(),
            ),
            ..mapping("Decimal", "Numeric", "numeric", "rust_decimal::Decimal")
        },
    );
    c
}

#[test]
fn cargo_toml_assembles_deps() {
    let ride = parse_spec(RIDE_YAML).unwrap();
    let f = generate_cargo_toml(&[ride], &project_config(), "demo");

    assert!(f.contents.contains("name = \"demo\""));
    assert!(f.contents.contains("edition = \"2021\""));
    // diesel was not in the config -> default injected.
    assert!(f
        .contents
        .contains("diesel = { version = \"2\", features = [\"postgres_backend\"] }"));
    // base dep, verbatim.
    assert!(f
        .contents
        .contains("serde = { version = \"1\", features = [\"derive\"] }"));
    // crate lines for the custom types Ride actually uses.
    assert!(f.contents.contains("chrono = { version = \"0.4\""));
    assert!(f.contents.contains("rust_decimal = { version = \"1\""));
}

#[test]
fn cargo_toml_omits_unused_type_crates() {
    // Booking uses no custom types; it still injects UTCTime timestamps.
    let booking = parse_spec(BOOKING_YAML).unwrap();
    let f = generate_cargo_toml(&[booking], &project_config(), "demo");
    assert!(f.contents.contains("chrono")); // UTCTime timestamps are used
    assert!(!f.contents.contains("rust_decimal")); // HighPrecMoney is not
}

#[test]
fn lib_rs_types_module_only_with_enums() {
    let ride = parse_spec(RIDE_YAML).unwrap();
    let booking = parse_spec(BOOKING_YAML).unwrap();
    assert!(generate_lib_rs(&[ride]).contents.contains("pub mod types;"));
    let lib = generate_lib_rs(&[booking]);
    assert!(!lib.contents.contains("pub mod types;"));
    assert!(lib.contents.contains("pub mod schema;"));
    assert!(lib.contents.contains("pub mod models;"));
}
