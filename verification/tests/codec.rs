use project_store::codec::{parse_projects, serialize_projects, serialize_projects_pretty};
use project_store::project::{Project, Status, StoreError};

fn rec(name: &str, status: Status, focus: u8) -> Project {
    Project { name: name.to_string(), status, focus }
}

fn two_records() -> Vec<Project> {
    vec![rec("one", Status::Active, 100), rec("two", Status::Archived, 75)]
}

#[test]
fn serialize_compact_exact() {
    let s = serialize_projects(&two_records());
    assert_eq!(
        s,
        "[{\"name\":\"one\",\"status\":\"Active\",\"focus\":100},{\"name\":\"two\",\"status\":\"Archived\",\"focus\":75}]"
    );
}

#[test]
fn serialize_pretty_exact() {
    let s = serialize_projects_pretty(&two_records());
    assert_eq!(
        s,
        "[\n  {\n    \"name\": \"one\",\n    \"status\": \"Active\",\n    \"focus\": 100\n  },\n  {\n    \"name\": \"two\",\n    \"status\": \"Archived\",\n    \"focus\": 75\n  }\n]"
    );
}

#[test]
fn serialize_empty() {
    let v: Vec<Project> = Vec::new();
    assert_eq!(serialize_projects(&v), "[]");
    assert_eq!(serialize_projects_pretty(&v), "[]");
}

#[test]
fn parse_empty_array() {
    assert_eq!(parse_projects("[]").unwrap().len(), 0);
    assert_eq!(parse_projects("  [ ]\n").unwrap().len(), 0);
}

#[test]
fn round_trip_compact() {
    let v = two_records();
    let back = parse_projects(&serialize_projects(&v)).unwrap();
    assert_eq!(back.len(), 2);
    assert_eq!(back[0].name, "one");
    assert_eq!(back[0].status, Status::Active);
    assert_eq!(back[0].focus, 100);
    assert_eq!(back[1].name, "two");
    assert_eq!(back[1].status, Status::Archived);
    assert_eq!(back[1].focus, 75);
}

#[test]
fn round_trip_pretty() {
    let v = two_records();
    let back = parse_projects(&serialize_projects_pretty(&v)).unwrap();
    assert_eq!(back.len(), 2);
    assert_eq!(back[0].name, "one");
    assert_eq!(back[1].name, "two");
    assert_eq!(back[1].status, Status::Archived);
}

#[test]
fn round_trip_escaped_name() {
    let v = vec![rec("a\"b\\c", Status::Inactive, 7)];
    let s = serialize_projects(&v);
    assert_eq!(s, "[{\"name\":\"a\\\"b\\\\c\",\"status\":\"Inactive\",\"focus\":7}]");
    let back = parse_projects(&s).unwrap();
    assert_eq!(back.len(), 1);
    assert_eq!(back[0].name, "a\"b\\c");
    assert_eq!(back[0].focus, 7);
}

#[test]
fn parse_any_field_order() {
    let back = parse_projects("[{\"focus\": 5, \"status\": \"Inactive\", \"name\": \"x\"}]")
        .unwrap();
    assert_eq!(back.len(), 1);
    assert_eq!(back[0].name, "x");
    assert_eq!(back[0].status, Status::Inactive);
    assert_eq!(back[0].focus, 5);
}

#[test]
fn parse_loose_whitespace() {
    let text = " \t\n[ {\n\t\"name\" : \"z\" ,\r\n \"status\"\n:\t\"Active\" , \"focus\" : 0 } ]\r\n";
    let back = parse_projects(text).unwrap();
    assert_eq!(back.len(), 1);
    assert_eq!(back[0].name, "z");
    assert_eq!(back[0].status, Status::Active);
    assert_eq!(back[0].focus, 0);
}

#[test]
fn unknown_status_rejected() {
    let r = parse_projects("[{\"name\":\"x\",\"status\":\"Paused\",\"focus\":1}]");
    assert_eq!(r.unwrap_err(), StoreError::DeserializationError);
}

#[test]
fn lowercase_status_rejected() {
    let r = parse_projects("[{\"name\":\"x\",\"status\":\"active\",\"focus\":1}]");
    assert_eq!(r.unwrap_err(), StoreError::DeserializationError);
}

#[test]
fn missing_field_rejected() {
    let r = parse_projects("[{\"name\":\"x\",\"status\":\"Active\"}]");
    assert_eq!(r.unwrap_err(), StoreError::DeserializationError);
}

#[test]
fn duplicate_field_rejected() {
    let r = parse_projects("[{\"name\":\"x\",\"name\":\"y\",\"focus\":1}]");
    assert_eq!(r.unwrap_err(), StoreError::DeserializationError);
}

#[test]
fn unknown_field_rejected() {
    let r = parse_projects("[{\"name\":\"x\",\"status\":\"Active\",\"focus\":1,\"extra\":2}]");
    assert_eq!(r.unwrap_err(), StoreError::DeserializationError);
}

#[test]
fn trailing_garbage_rejected() {
    let r = parse_projects("[] tail");
    assert_eq!(r.unwrap_err(), StoreError::DeserializationError);
}

#[test]
fn not_an_array_rejected() {
    let r = parse_projects("{\"name\":\"x\",\"status\":\"Active\",\"focus\":1}");
    assert_eq!(r.unwrap_err(), StoreError::DeserializationError);
}

#[test]
fn empty_input_rejected() {
    assert_eq!(parse_projects("").unwrap_err(), StoreError::DeserializationError);
    assert_eq!(parse_projects("   ").unwrap_err(), StoreError::DeserializationError);
}

#[test]
fn unterminated_string_rejected() {
    let r = parse_projects("[{\"name\":\"x");
    assert_eq!(r.unwrap_err(), StoreError::DeserializationError);
}

#[test]
fn bad_escape_rejected() {
    let r = parse_projects("[{\"name\":\"a\\qb\",\"status\":\"Active\",\"focus\":1}]");
    assert_eq!(r.unwrap_err(), StoreError::DeserializationError);
}

#[test]
fn focus_past_byte_range_rejected() {
    let r = parse_projects("[{\"name\":\"x\",\"status\":\"Active\",\"focus\":300}]");
    assert_eq!(r.unwrap_err(), StoreError::DeserializationError);
}

#[test]
fn focus_past_hundred_accepted() {
    // The 0-100 range is a convention of the data, not enforced on read,
    // matching the byte-sized field.
    let back = parse_projects("[{\"name\":\"x\",\"status\":\"Active\",\"focus\":200}]").unwrap();
    assert_eq!(back[0].focus, 200);
}

#[test]
fn focus_non_numeric_rejected() {
    let r = parse_projects("[{\"name\":\"x\",\"status\":\"Active\",\"focus\":\"1\"}]");
    assert_eq!(r.unwrap_err(), StoreError::DeserializationError);
}
