use remine_client::json::{Json, JsonNumber};
use remine_client::json_text::to_compact_string;
use remine_client::requests::{
    attachment_summary, filterattachments, issue_attachments, issue_statuses_url, issue_url, issues_by_status_url,
    new_session_json, request_headers, status_message, update_issue_url, upload_token, upload_url, SessionInfo,
    SessionSerilaizer,
};

fn attachment(name: &str, size: u64) -> Json {
    let mut a = Json::Null;
    a.set("filename", Json::Str(name.to_string()));
    a.set("filesize", Json::Number(JsonNumber::PosInt(size)));
    a.set("description", Json::Str(String::new()));
    a
}

fn names(v: &Vec<Json>) -> Vec<String> {
    v.iter().map(|a| a.field("filename").unwrap().as_str().unwrap().clone()).collect()
}

#[test]
fn session_round_trip() {
    let s = SessionInfo { url: "https://r.example".to_string(), apikey: "k1".to_string() };
    let j = s.serializesession();
    assert_eq!(to_compact_string(&j), r#"{"apikey":"k1","url":"https://r.example"}"#);
    let back = SessionInfo::deserializesession(j);
    assert_eq!(back.url, "https://r.example");
    assert_eq!(back.apikey, "k1");
}

#[test]
fn typed_session_is_trimmed() {
    let j = new_session_json(" https://r.example\n", "abc\r\n");
    assert_eq!(to_compact_string(&j), r#"{"apikey":"abc","url":"https://r.example"}"#);
}

#[test]
fn headers_carry_content_type_and_key() {
    let s = SessionInfo { url: String::new(), apikey: "KEY".to_string() };
    let h = request_headers(&s, false);
    assert_eq!(h, vec![
        ("Content-Type".to_string(), "application/json".to_string()),
        ("X-Redmine-API-Key".to_string(), "KEY".to_string())
    ]);
    assert_eq!(request_headers(&s, true)[0].1, "application/octet-stream");
}

#[test]
fn request_addresses() {
    assert_eq!(issue_url("http://h", 12), "http://h/issues/12.json?include=attachments,journals,changesets");
    assert_eq!(issues_by_status_url("http://h", 3), "http://h/issues.json?status_id=3");
    assert_eq!(issue_statuses_url("http://h"), "http://h/issue_statuses.json");
    assert_eq!(update_issue_url("http://h", 7), "http://h/issues/7.json");
    assert_eq!(upload_url("http://h", " a b.txt\n"), "http://h/uploads.json?filename=a b.txt");
}

#[test]
fn status_verdicts() {
    assert_eq!(status_message(200), None);
    assert_eq!(status_message(204), None);
    assert_eq!(status_message(404).unwrap(), "Request not found!");
    assert_eq!(status_message(401).unwrap(), "You're not Authorized for access!");
    assert_eq!(status_message(408).unwrap(), "Request Timed out!!. Make sure the server is accessible!");
    assert_eq!(status_message(422).unwrap(), "Unprocessible Entities. Please check custom value specifications");
    assert_eq!(status_message(500).unwrap(), "Error: 500");
    assert_eq!(status_message(201).unwrap(), "Error: 201");
}

#[test]
fn star_selects_every_attachment() {
    let a = vec![attachment("a.txt", 1), attachment("b.pdf", 2)];
    let f = filterattachments(a, vec!["*".to_string()]);
    assert_eq!(names(&f), vec!["a.txt", "b.pdf"]);
}

#[test]
fn partial_names_select_attachments() {
    let a = vec![attachment("report.pdf", 1), attachment("data.csv", 2), attachment("old_report.txt", 3)];
    let f = filterattachments(a, vec!["report".to_string(), "xyz".to_string()]);
    assert_eq!(names(&f), vec!["report.pdf", "old_report.txt"]);
    let a = vec![attachment("report.pdf", 1)];
    assert!(filterattachments(a, Vec::new()).is_empty());
}

#[test]
fn attachments_of_an_issue() {
    let mut issue = Json::Null;
    issue.set_in("issue", "attachments", Json::Array(vec![attachment("x", 5)]));
    let a = issue_attachments(&issue).unwrap();
    assert_eq!(names(&a), vec!["x"]);
    assert!(issue_attachments(&Json::Null).is_none());
}

#[test]
fn attachment_listing_lines() {
    let a = vec![attachment("a.txt", 10), attachment("b", 20)];
    let (lines, complete) = attachment_summary(&a);
    assert!(complete);
    assert_eq!(lines, vec![
        "Number of Attachments: 2".to_string(),
        "Number\tName\tSize\tDescription".to_string(),
        "\t1 - \"a.txt\"\t10\t\"\"".to_string(),
        "\t2 - \"b\"\t20\t\"\"".to_string(),
    ]);
}

#[test]
fn attachment_listing_name_comes_before_size() {
    let (lines, _) = attachment_summary(&vec![attachment("a", 1)]);
    assert_eq!(lines[2], "\t1 - \"a\"\t1\t\"\"");
}

#[test]
fn attachment_listing_stops_at_an_incomplete_attachment() {
    let a = vec![attachment("a", 1), Json::Object(Vec::new()), attachment("c", 3)];
    let (lines, complete) = attachment_summary(&a);
    assert!(!complete);
    assert_eq!(lines, vec![
        "Number of Attachments: 3".to_string(),
        "Number\tName\tSize\tDescription".to_string(),
        "\t1 - \"a\"\t1\t\"\"".to_string(),
    ]);
    let (lines, complete) = attachment_summary(&vec![Json::Object(Vec::new())]);
    assert!(!complete);
    assert_eq!(lines.len(), 2);
}

#[test]
fn more_names_never_drop_a_match() {
    let all = || vec![attachment("report.pdf", 1), attachment("notes.txt", 2), attachment("old_report.txt", 3)];
    let few = filterattachments(all(), vec!["report".to_string()]);
    let more = filterattachments(all(), vec!["report".to_string(), "notes".to_string()]);
    assert_eq!(names(&few), vec!["report.pdf", "old_report.txt"]);
    assert_eq!(names(&more), vec!["report.pdf", "notes.txt", "old_report.txt"]);
    let again = filterattachments(more, vec!["report".to_string()]);
    assert_eq!(names(&again), names(&few));
}

#[test]
fn token_of_an_upload_reply() {
    let mut reply = Json::Null;
    reply.set_in("upload", "token", Json::Str("7.abc".to_string()));
    assert_eq!(upload_token(&reply).unwrap(), "7.abc");
    assert!(upload_token(&Json::Null).is_none());
}
