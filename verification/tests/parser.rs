use namma_diesel::ir::TypeDef;
use namma_diesel::parser::parse_spec;

const RIDE_YAML: &str = "Ride:
  tableName: ride
  fields:
    id: Id Ride
    status: Status
    fare: Maybe HighPrecMoney
    driverId: Id Person
  constraints:
    id: PrimaryKey
    driverId: SecondaryKey
  beamType:
    status: Text
  types:
    Status:
      - enum: \"NEW,INPROGRESS,COMPLETED,CANCELLED\"
      - derive: \"Show,Eq\"
";

#[test]
fn parses_ride_spec() {
    let table = parse_spec(RIDE_YAML).expect("Ride.yaml should parse");

    assert_eq!(table.name, "Ride");
    assert_eq!(table.sql_table, "ride");
    assert_eq!(table.fields.len(), 6); // 4 spec'd + created/updated
    assert_eq!(table.primary_key, vec!["id"]);
    assert_eq!(table.secondary_keys, vec!["driverId"]);

    let fare = table.fields.iter().find(|f| f.name == "fare").unwrap();
    assert!(fare.optional);
    assert!(table.fields.iter().any(|f| f.name == "createdAt"));

    assert_eq!(table.types.len(), 1);
    let TypeDef::Enum { variants, .. } = &table.types[0];
    assert_eq!(variants, &["NEW", "INPROGRESS", "COMPLETED", "CANCELLED"]);
}
