use remine_client::file_ops::{content_length, download_source, upload_content_type, upload_issue_json, LengthError};
use remine_client::json_text::{json_plain, to_compact_string};
use remine_client::json::{Json, JsonNumber};
use remine_client::requests::new_session_json;
use remine_client::session::{open_session, seal_session, session_key};

#[test]
fn key_is_word_and_mac() {
    assert_eq!(session_key(None), "magickey");
    assert_eq!(session_key(Some("AA:BB:CC:DD:EE:FF")), "magickeyAA:BB:CC:DD:EE:FF");
}

#[test]
fn known_cipher_text_opens() {
    assert_eq!(open_session("magickey", "DS/2U8royDnJDiNY2ps3f6ZoTbpZo8ZtUGYLGEjwLDQ=").unwrap(), "http://magiclen.org");
    assert!(open_session("magickey", "not base64!").is_none());
}

#[test]
fn sealed_session_opens_to_its_pretty_text() {
    let s = new_session_json("https://r.example", "k");
    let sealed = seal_session("magickeyXY", &s);
    let text = open_session("magickeyXY", &sealed).unwrap();
    assert_eq!(text, "{\n  \"apikey\": \"k\",\n  \"url\": \"https://r.example\"\n}");
    assert!(open_session("other", &sealed).map(|t| t != text).unwrap_or(true));
}

#[test]
fn upload_content_types() {
    assert_eq!(upload_content_type("notes.bin", true), "text/plain");
    assert_eq!(upload_content_type("photo.png", false), "image/png");
    assert_eq!(upload_content_type("README", false), "application/octet-stream");
}

#[test]
fn download_source_of_an_attachment() {
    let mut a = Json::Null;
    a.set("content_url", Json::Str("http://h/attachments/download/1/x.txt".to_string()));
    a.set("filename", Json::Str("x.txt".to_string()));
    a.set("filesize", Json::Number(JsonNumber::PosInt(42)));
    let (u, n, s) = download_source(&a).unwrap();
    assert_eq!(u, "http://h/attachments/download/1/x.txt");
    assert_eq!(n, "x.txt");
    assert_eq!(s, 42);
    a.set("filesize", Json::Str("42".to_string()));
    assert!(download_source(&a).is_none());
}

#[test]
fn content_length_from_header_or_size() {
    assert_eq!(content_length(None, 42), Ok(42));
    assert_eq!(content_length(None, u64::MAX), Ok(u64::MAX));
    assert_eq!(content_length(Some(b"1234".to_vec()), 42), Ok(1234));
    assert_eq!(content_length(Some(b"12a".to_vec()), 42), Err(LengthError::NotNumber));
    assert_eq!(content_length(Some(vec![0x31, 0x7f]), 42), Err(LengthError::NotText));
}

#[test]
fn upload_document_for_a_token() {
    let doc = upload_issue_json("7.abc", "notes.txt", "text/plain");
    assert_eq!(
        to_compact_string(&doc),
        r#"{"issue":{"notes":"","uploads":[{"content_type":"text/plain","filename":"notes.txt","token":"7.abc"}]}}"#
    );
    let text = "{\"issue\": { \"notes\":\"\",\n \"uploads\":[\n {\"token\": \"7.abc\" ,\n \"filename\": \"notes.txt\",\n \"content_type\":\"text/plain\"\n }\n ]\n }}";
    let v: serde_json::Value = serde_json::from_str(text).unwrap();
    assert_eq!(serde_json::to_string(&v).unwrap(), to_compact_string(&doc));
}

#[test]
fn plain_json_text() {
    assert!(json_plain("notes.txt"));
    assert!(json_plain(""));
    assert!(!json_plain("a\"b"));
    assert!(!json_plain("a\\b"));
    assert!(!json_plain("a\nb"));
}
