use remine_client::issue::{
    add_note_issue, create_emty_issue, create_issue_template, get_custom_field_by_id, get_custom_field_by_name,
    get_custom_fields, modify_issue_status_byID, push_custom_field, update_custom_field_value,
};
use remine_client::json::{Json, JsonNumber};
use remine_client::json_text::to_compact_string;

fn s(x: &str) -> Json {
    Json::Str(x.to_string())
}

fn field(id: u64, name: &str, value: &str) -> Json {
    let mut f = Json::Null;
    f.set("id", Json::Number(JsonNumber::PosInt(id)));
    f.set("name", s(name));
    f.set("value", s(value));
    f
}

fn issue_with_fields() -> Json {
    let mut issue = create_emty_issue();
    issue = push_custom_field(issue, field(4, "Owner", "ann"));
    issue = push_custom_field(issue, field(7, "Stage", ""));
    issue = push_custom_field(issue, field(9, "Owner", "bob"));
    issue
}

#[test]
fn empty_issue_document() {
    assert_eq!(to_compact_string(&create_emty_issue()), r#"{"issue":{"custom_fields":[]}}"#);
}

#[test]
fn push_appends_custom_fields_in_order() {
    let issue = issue_with_fields();
    assert_eq!(
        to_compact_string(&get_custom_fields(issue)),
        r#"[{"id":4,"name":"Owner","value":"ann"},{"id":7,"name":"Stage","value":""},{"id":9,"name":"Owner","value":"bob"}]"#
    );
}

#[test]
fn custom_fields_of_an_issue_without_them_is_null() {
    assert!(matches!(get_custom_fields(Json::Null), Json::Null));
}

#[test]
fn find_custom_field_by_name_takes_the_first() {
    let fields = get_custom_fields(issue_with_fields());
    let f = get_custom_field_by_name("Owner".to_string(), fields).unwrap();
    assert_eq!(to_compact_string(&f), r#"{"id":4,"name":"Owner","value":"ann"}"#);
}

#[test]
fn find_custom_field_by_name_is_case_sensitive() {
    let fields = get_custom_fields(issue_with_fields());
    let e = get_custom_field_by_name("owner".to_string(), fields).unwrap_err();
    assert_eq!(e, "owner not found in custom fields\n");
}

#[test]
fn find_custom_field_by_id() {
    let fields = get_custom_fields(issue_with_fields());
    let f = get_custom_field_by_id(9, fields).unwrap();
    assert_eq!(to_compact_string(&f), r#"{"id":9,"name":"Owner","value":"bob"}"#);
    let fields = get_custom_fields(issue_with_fields());
    assert_eq!(get_custom_field_by_id(5, fields).unwrap_err(), "Field with id 5 not found in custom fields\n");
}

#[test]
fn update_value_of_a_field() {
    let f = update_custom_field_value("done", field(7, "Stage", "")).unwrap();
    assert_eq!(to_compact_string(&f), r#"{"id":7,"name":"Stage","value":"done"}"#);
    let g = update_custom_field_value("x", Json::Null).unwrap();
    assert_eq!(to_compact_string(&g), r#"{"value":"x"}"#);
}

#[test]
fn note_on_a_fresh_issue_uses_dos_line_breaks() {
    let issue = add_note_issue(create_emty_issue(), "line1\nline2\r\nline3".to_string(), false);
    assert_eq!(
        to_compact_string(&issue),
        r#"{"issue":{"custom_fields":[],"notes":"line1\r\nline2\r\nline3"}}"#
    );
}

#[test]
fn note_in_front_of_an_existing_note() {
    let mut issue = create_emty_issue();
    issue.set_in("issue", "notes", s("old \"one\"\nx"));
    let issue = add_note_issue(issue, "new".to_string(), false);
    let notes = issue.field("issue").unwrap().field("notes").unwrap();
    assert_eq!(notes.as_str().unwrap(), "new\nold \\\"one\\\"\\nx");
}

#[test]
fn note_in_front_of_an_empty_note() {
    let mut issue = create_emty_issue();
    issue.set_in("issue", "notes", s(""));
    let issue = add_note_issue(issue, "file attached".to_string(), false);
    let notes = issue.field("issue").unwrap().field("notes").unwrap();
    assert_eq!(notes.as_str().unwrap(), "file attached\n");
}

#[test]
fn note_in_front_of_a_numeric_note() {
    let mut issue = create_emty_issue();
    issue.set_in("issue", "notes", Json::Number(JsonNumber::PosInt(12)));
    let issue = add_note_issue(issue, "m".to_string(), false);
    let notes = issue.field("issue").unwrap().field("notes").unwrap();
    assert_eq!(notes.as_str().unwrap(), "m\n12");
}

#[test]
fn private_note_sets_the_flag() {
    let issue = add_note_issue(create_emty_issue(), "secret".to_string(), true);
    assert_eq!(
        to_compact_string(&issue),
        r#"{"issue":{"custom_fields":[],"notes":"secret","private_notes":true}}"#
    );
}

#[test]
fn status_is_set_on_the_issue() {
    let issue = modify_issue_status_byID(create_emty_issue(), 5);
    assert_eq!(to_compact_string(&issue), r#"{"issue":{"custom_fields":[],"status_id":5}}"#);
}

#[test]
fn template_lists_ids_and_names_as_json() {
    let t = create_issue_template(issue_with_fields());
    assert_eq!(t, "id,name,value\n4,\"Owner\",\n7,\"Stage\",\n9,\"Owner\",\n");
    assert_eq!(create_issue_template(create_emty_issue()), "id,name,value\n");
}

#[test]
fn template_prints_missing_members_as_null() {
    let mut issue = create_emty_issue();
    issue = push_custom_field(issue, Json::Object(Vec::new()));
    assert_eq!(create_issue_template(issue), "id,name,value\nnull,null,\n");
}
