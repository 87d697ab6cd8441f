use remine_client::issue::{create_emty_issue, create_issue_template, push_custom_field};
use remine_client::json::{Json, JsonNumber};
use remine_client::json_text::to_compact_string;
use remine_client::template::{custom_fields_from_records, CustomFieldRecord};

fn compact_all(v: &Vec<Json>) -> Vec<String> {
    v.iter().map(to_compact_string).collect()
}

fn record(id: usize, name: &str, value: &str) -> CustomFieldRecord {
    CustomFieldRecord { id, name: name.to_string(), value: value.to_string() }
}

#[test]
fn record_document() {
    let r = record(3, "n", "v");
    assert_eq!(to_compact_string(&r.to_json()), r#"{"id":3,"name":"n","value":"v"}"#);
}

#[test]
fn records_give_custom_field_documents_in_order() {
    let v = custom_fields_from_records(&vec![record(4, "Owner", "ann"), record(7, "Stage", "a, b")]);
    assert_eq!(
        compact_all(&v),
        vec![
            r#"{"id":4,"name":"Owner","value":"ann"}"#.to_string(),
            r#"{"id":7,"name":"Stage","value":"a, b"}"#.to_string()
        ]
    );
    assert!(custom_fields_from_records(&Vec::new()).is_empty());
}

#[test]
fn template_of_an_issue_reads_back() {
    let mut issue = create_emty_issue();
    for (id, name) in [(4u64, "Owner"), (7, "Due, date")] {
        let mut f = Json::Null;
        f.set("id", Json::Number(JsonNumber::PosInt(id)));
        f.set("name", Json::Str(name.to_string()));
        f.set("value", Json::Str(String::new()));
        issue = push_custom_field(issue, f);
    }
    let text = create_issue_template(issue);
    assert_eq!(text, "id,name,value\n4,\"Owner\",\n7,\"Due, date\",\n");
    let mut reader = csv::ReaderBuilder::new().from_reader(text.as_bytes());
    let mut records = Vec::new();
    for row in reader.records() {
        let row = row.unwrap();
        records.push(record(row[0].parse().unwrap(), &row[1], &row[2]));
    }
    let back = custom_fields_from_records(&records);
    assert_eq!(
        compact_all(&back),
        vec![
            r#"{"id":4,"name":"Owner","value":""}"#.to_string(),
            r#"{"id":7,"name":"Due, date","value":""}"#.to_string()
        ]
    );
}
