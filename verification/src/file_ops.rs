//! What the client decides around uploads and downloads: the content type
//! of an upload, where an attachment is fetched from, and how long it is.
use vstd::prelude::*;
use vstd::string::*;
use crate::json::{Json, JsonData, lemma_array_view, lemma_object_view, items_view, entries_view};
use crate::text::{decimal, decimal_string, chars_of, parse_unsigned, parse_unsigned_spec, lemma_decimal_parses};

verus! {

/// An uploaded file as attached to an issue.
#[derive(Debug)]
pub struct Upload {
    pub token: String,
    pub filename: String,
    pub description: String,
    pub content_type: String,
}

/// The MIME type that `mime_guess` finds for a path's extension, or
/// `application/octet-stream` when it knows none.
pub uninterp spec fn guessed_mime(path: Seq<char>) -> Seq<char>;

/// Guesses a MIME type from a path (`mime_guess::from_path`, then
/// `first_or_octet_stream`).
#[verifier::external_body]
fn guess_mime(path: &str) -> (res: String)
    ensures
        res@ == guessed_mime(path@),
{
    mime_guess::from_path(path).first_or_octet_stream().to_string()
}

/// The content type sent with an uploaded file: `text/plain` when asked
/// for, otherwise the type guessed from the file's extension.
pub fn upload_content_type(path: &str, is_text: bool) -> (res: String)
    ensures
        res@ == (if is_text { "text/plain"@ } else { guessed_mime(path@) }),
{
    if is_text {
        "text/plain".to_owned()
    } else {
        guess_mime(path)
    }
}


/// The record of one uploaded file in an issue update:
/// `{"content_type":..,"filename":..,"token":..}`, members in key order.
pub open spec fn upload_entry(token: Seq<char>, filename: Seq<char>, content_type: Seq<char>) -> JsonData {
    JsonData::Object(
        seq![
            ("content_type"@, JsonData::Str(content_type)),
            ("filename"@, JsonData::Str(filename)),
            ("token"@, JsonData::Str(token)),
        ],
    )
}

/// The issue update that attaches an uploaded file:
/// `{"issue":{"notes":"","uploads":[upload_entry]}}`, members in key order.
pub open spec fn upload_document(token: Seq<char>, filename: Seq<char>, content_type: Seq<char>) -> JsonData {
    JsonData::Object(
        seq![
            (
                "issue"@,
                JsonData::Object(
                    seq![
                        ("notes"@, JsonData::Str(Seq::empty())),
                        ("uploads"@, JsonData::Array(seq![upload_entry(token, filename, content_type)])),
                    ],
                ),
            ),
        ],
    )
}

/// Builds the issue update that attaches the file uploaded under `token`.
pub fn upload_issue_json(token: &str, filename: &str, content_type: &str) -> (res: Json)
    ensures
        res@ == upload_document(token@, filename@, content_type@),
{
    let upload = vec![
        ("content_type".to_owned(), Json::Str(content_type.to_owned())),
        ("filename".to_owned(), Json::Str(filename.to_owned())),
        ("token".to_owned(), Json::Str(token.to_owned())),
    ];
    proof {
        lemma_object_view(upload);
        assert(entries_view(upload@) =~= upload_entry(token@, filename@, content_type@)->Object_0);
    }
    let entry = Json::Object(upload);
    assert(entry@ == upload_entry(token@, filename@, content_type@));
    let uploads = vec![entry];
    proof {
        lemma_array_view(uploads);
        assert(items_view(uploads@) =~= seq![upload_entry(token@, filename@, content_type@)]);
    }
    let list = Json::Array(uploads);
    let issue = vec![("notes".to_owned(), Json::Str(String::new())), ("uploads".to_owned(), list)];
    proof {
        lemma_object_view(issue);
        assert(entries_view(issue@) =~= upload_document(token@, filename@, content_type@)->Object_0[0].1->Object_0);
    }
    let inner = Json::Object(issue);
    let doc = vec![("issue".to_owned(), inner)];
    proof {
        lemma_object_view(doc);
        assert(entries_view(doc@) =~= upload_document(token@, filename@, content_type@)->Object_0);
    }
    Json::Object(doc)
}

/// Where an attachment is downloaded from, its file name and its size.
pub fn download_source(attachment: &Json) -> (res: Option<(String, String, u64)>)
    ensures
        match res {
            Some((url, name, size)) => attachment@.get("content_url"@) == JsonData::Str(url@) && attachment@.get(
                "filename"@,
            ) == JsonData::Str(name@) && attachment@.get("filesize"@) == JsonData::PosInt(size),
            None => !(attachment@.get("content_url"@) is Str) || !(attachment@.get("filename"@) is Str)
                || !(attachment@.get("filesize"@) is PosInt),
        },
{
    let url = match attachment.field("content_url") {
        Some(v) => v.as_str(),
        None => None,
    };
    let name = match attachment.field("filename") {
        Some(v) => v.as_str(),
        None => None,
    };
    let size = match attachment.field("filesize") {
        Some(v) => v.as_u64(),
        None => None,
    };
    match (url, name, size) {
        (Some(u), Some(n), Some(s)) => Some((u.clone(), n.clone(), s)),
        _ => None,
    }
}

/// Why a `Content-Length` header cannot be read.
#[derive(Debug, Clone, Copy, PartialEq, Eq, Structural)]
pub enum LengthError {
    /// The header holds a byte that is not visible ASCII.
    NotText,
    /// The header is not an unsigned number.
    NotNumber,
}

/// Visible ASCII or a tab (`HeaderValue::to_str`).
pub open spec fn visible_ascii(b: u8) -> bool {
    (32 <= b && b < 127) || b == 9
}

/// The characters of header bytes that are all ASCII.
pub open spec fn ascii_text(bytes: Seq<u8>) -> Seq<char> {
    Seq::new(bytes.len(), |i: int| bytes[i] as char)
}

/// The length of a downloaded attachment: the response's `Content-Length`
/// header when there is one, otherwise the size recorded for the attachment.
pub fn content_length(header: Option<Vec<u8>>, filesize: u64) -> (res: Result<u64, LengthError>)
    ensures
        match header {
            None => res == Ok::<u64, LengthError>(filesize),
            Some(b) => if !(forall|i: int| 0 <= i < b@.len() ==> visible_ascii(#[trigger] b@[i])) {
                res == Err::<u64, LengthError>(LengthError::NotText)
            } else {
                match parse_unsigned_spec(ascii_text(b@), u64::MAX as nat) {
                    Some(v) => res == Ok::<u64, LengthError>(v as u64),
                    None => res == Err::<u64, LengthError>(LengthError::NotNumber),
                }
            },
        },
{
    let text: Vec<char> = match header {
        None => {
            let s = decimal_string(filesize);
            chars_of(s.as_str())
        },
        Some(b) => {
            let mut t: Vec<char> = Vec::new();
            let mut i: usize = 0;
            while i < b.len()
                invariant
                    header == Some(b),
                    i <= b.len(),
                    forall|k: int| 0 <= k < i ==> visible_ascii(#[trigger] b@[k]),
                    t@ == ascii_text(b@.subrange(0, i as int)),
                decreases b.len() - i,
            {
                let c = b[i];
                if !((32 <= c && c < 127) || c == 9) {
                    assert(!visible_ascii(b@[i as int]));
                    return Err(LengthError::NotText);
                }
                t.push(c as char);
                assert(t@ =~= ascii_text(b@.subrange(0, i + 1)));
                i = i + 1;
            }
            assert(b@.subrange(0, b.len() as int) =~= b@);
            t
        },
    };
    proof {
        if header is None {
            lemma_decimal_parses(filesize as nat);
        }
    }
    match parse_unsigned(text.as_slice(), u64::MAX) {
        Some(v) => Ok(v),
        None => Err(LengthError::NotNumber),
    }
}

} // verus!
