//! What the client decides around its requests to the Redmine API: the
//! session record, request addresses and headers, the verdict on a response
//! status, and the selection and listing of an issue's attachments.
use vstd::prelude::*;
use vstd::string::*;
use crate::json::{Json, JsonData, items_view, lemma_array_view, key_lt, key_at, has_key, first_after};
use crate::json_text::{compact, write_compact};
use crate::text::{decimal, push_decimal, push_char, trim, trim_white, contains_seq, contains_text};

verus! {

/// The address of the Redmine server and the API key used with it.
#[derive(Debug)]
pub struct SessionInfo {
    /// Full base URL of the Redmine server.
    pub url: String,
    /// The API key, as shown by Redmine.
    pub apikey: String,
}

/// The session document: `{"apikey": .., "url": ..}`.
pub open spec fn session_json(url: Seq<char>, apikey: Seq<char>) -> JsonData {
    JsonData::Object(seq![("apikey"@, JsonData::Str(apikey)), ("url"@, JsonData::Str(url))])
}

/// Builds the session document with members in key order.
fn make_session_json(url: String, apikey: String) -> (res: Json)
    ensures
        res@ == session_json(url@, apikey@),
{
    let ghost (u, k) = (url@, apikey@);
    let mut j = Json::Null;
    j.set("url", Json::Str(url));
    let ghost after_url = j@;
    assert(after_url == JsonData::Object(seq![("url"@, JsonData::Str(u))]));
    proof {
        reveal_strlit("url");
        reveal_strlit("apikey");
        let e = seq![("url"@, JsonData::Str(u))];
        assert("apikey"@.subrange(0, 0) =~= "url"@.subrange(0, 0));
        assert(key_lt("apikey"@, "url"@));
        assert(first_after(e, "apikey"@, 0));
        assert(!key_at(e, "apikey"@, 0));
        assert(!has_key(e, "apikey"@));
    }
    j.set("apikey", Json::Str(apikey));
    proof {
        let e = seq![("url"@, JsonData::Str(u))];
        let p = crate::json::insert_pos(e, "apikey"@);
        assert(p == 0);
        let e2 = e.insert(0, ("apikey"@, JsonData::Str(k)));
        assert(e2 =~= seq![("apikey"@, JsonData::Str(k)), ("url"@, JsonData::Str(u))]);
        assert(j@ == JsonData::Object(e2));
    }
    j
}

/// Conversion between a session record and its JSON document.
pub trait SessionSerilaizer {
    fn serializesession(&self) -> Json;

    fn deserializesession(i: Json) -> SessionInfo
        requires
            i@.get("url"@) is Str,
            i@.get("apikey"@) is Str,
    ;
}

impl SessionSerilaizer for SessionInfo {
    /// The session as `{"apikey": .., "url": ..}`.
    fn serializesession(&self) -> (res: Json)
        ensures
            res@ == session_json(self.url@, self.apikey@),
    {
        make_session_json(self.url.clone(), self.apikey.clone())
    }

    /// The session stored in a document's `url` and `apikey` members.
    fn deserializesession(i: Json) -> (res: SessionInfo)
        ensures
            JsonData::Str(res.url@) == i@.get("url"@),
            JsonData::Str(res.apikey@) == i@.get("apikey"@),
    {
        let url = match i.field("url") {
            Some(v) => match v.as_str() {
                Some(s) => s.clone(),
                None => String::new(),
            },
            None => String::new(),
        };
        let apikey = match i.field("apikey") {
            Some(v) => match v.as_str() {
                Some(s) => s.clone(),
                None => String::new(),
            },
            None => String::new(),
        };
        SessionInfo { url, apikey }
    }
}

/// The session document for an address and a key as typed by the user:
/// both are trimmed of surrounding white space.
pub fn new_session_json(adress: &str, apikey: &str) -> (res: Json)
    ensures
        res@ == session_json(trim(adress@), trim(apikey@)),
{
    make_session_json(trim_white(adress), trim_white(apikey))
}

/// The headers sent with every request: the content type (JSON, or raw
/// bytes for an upload) and the API key.
pub fn request_headers(session: &SessionInfo, upload: bool) -> (res: Vec<(String, String)>)
    ensures
        res@.len() == 2,
        res@[0].0@ == "Content-Type"@,
        res@[0].1@ == (if upload { "application/octet-stream"@ } else { "application/json"@ }),
        res@[1].0@ == "X-Redmine-API-Key"@,
        res@[1].1@ == session.apikey@,
{
    let mut res: Vec<(String, String)> = Vec::new();
    let ct = if upload { "application/octet-stream".to_owned() } else { "application/json".to_owned() };
    res.push(("Content-Type".to_owned(), ct));
    res.push(("X-Redmine-API-Key".to_owned(), session.apikey.clone()));
    res
}

/// `GET` address of one issue with its attachments, journals and changesets.
pub fn issue_url(base: &str, issuenumber: usize) -> (res: String)
    ensures
        res@ == base@ + "/issues/"@ + decimal(issuenumber as nat) + ".json?include=attachments,journals,changesets"@,
{
    let mut s = base.to_owned();
    s.append("/issues/");
    push_decimal(&mut s, issuenumber as u64);
    s.append(".json?include=attachments,journals,changesets");
    s
}

/// `GET` address of the issues with a given status.
pub fn issues_by_status_url(base: &str, status_id: usize) -> (res: String)
    ensures
        res@ == base@ + "/issues.json?status_id="@ + decimal(status_id as nat),
{
    let mut s = base.to_owned();
    s.append("/issues.json?status_id=");
    push_decimal(&mut s, status_id as u64);
    s
}

/// `GET` address of the list of issue statuses.
pub fn issue_statuses_url(base: &str) -> (res: String)
    ensures
        res@ == base@ + "/issue_statuses.json"@,
{
    let mut s = base.to_owned();
    s.append("/issue_statuses.json");
    s
}

/// `PUT` address that updates one issue.
pub fn update_issue_url(base: &str, issuenumber: usize) -> (res: String)
    ensures
        res@ == base@ + "/issues/"@ + decimal(issuenumber as nat) + ".json"@,
{
    let mut s = base.to_owned();
    s.append("/issues/");
    push_decimal(&mut s, issuenumber as u64);
    s.append(".json");
    s
}

/// `POST` address that uploads a file under the (trimmed) file name.
pub fn upload_url(base: &str, filename: &str) -> (res: String)
    ensures
        res@ == base@ + "/uploads.json?filename="@ + trim(filename@),
{
    let mut s = base.to_owned();
    s.append("/uploads.json?filename=");
    let f = trim_white(filename);
    s.append(f.as_str());
    s
}

/// What the client says before it stops on a response status, or `None`
/// for the statuses it accepts (200 OK and 204 No Content).
pub fn status_message(status: u16) -> (res: Option<String>)
    ensures
        res is None <==> (status == 200 || status == 204),
        res matches Some(m) ==> m@ == (if status == 404 {
            "Request not found!"@
        } else if status == 401 {
            "You're not Authorized for access!"@
        } else if status == 408 {
            "Request Timed out!!. Make sure the server is accessible!"@
        } else if status == 422 {
            "Unprocessible Entities. Please check custom value specifications"@
        } else {
            "Error: "@ + decimal(status as nat)
        }),
{
    if status == 200 || status == 204 {
        None
    } else if status == 404 {
        Some("Request not found!".to_owned())
    } else if status == 401 {
        Some("You're not Authorized for access!".to_owned())
    } else if status == 408 {
        Some("Request Timed out!!. Make sure the server is accessible!".to_owned())
    } else if status == 422 {
        Some("Unprocessible Entities. Please check custom value specifications".to_owned())
    } else {
        let mut m = "Error: ".to_owned();
        push_decimal(&mut m, status as u64);
        Some(m)
    }
}


/// The attachments of an issue document (`issue.attachments`), when that
/// member is an array.
pub fn issue_attachments(issue: &Json) -> (res: Option<Vec<Json>>)
    ensures
        match res {
            Some(v) => issue@.get("issue"@).get("attachments"@) == JsonData::Array(items_view(v@)),
            None => !(issue@.get("issue"@).get("attachments"@) is Array),
        },
{
    match issue.field("issue") {
        Some(inner) => match inner.field("attachments") {
            Some(a) => if a.is_array() {
                let c = a.deep_clone();
                match c {
                    Json::Array(v) => {
                        proof {
                            lemma_array_view(v);
                        }
                        Some(v)
                    },
                    _ => None,
                }
            } else {
                None
            },
            None => None,
        },
        None => None,
    }
}

/// The file name of an attachment document.
pub open spec fn attachment_name(a: JsonData) -> Seq<char> {
    a.get("filename"@)->Str_0
}

/// Every attachment has a string file name.
pub open spec fn all_named(a: Seq<JsonData>) -> bool {
    forall|i: int| 0 <= i < a.len() ==> (#[trigger] a[i]).get("filename"@) is Str
}

/// The single pattern `*`, which selects every attachment.
pub open spec fn selects_all(names: Seq<String>) -> bool {
    names.len() == 1 && names[0]@ == "*"@
}

/// An attachment whose file name contains one of the given names.
pub open spec fn name_wanted(a: JsonData, names: Seq<String>) -> bool {
    exists|k: int| 0 <= k < names.len() && contains_seq(attachment_name(a), #[trigger] names[k]@)
}

/// The test that keeps an attachment when names other than `*` are given.
pub open spec fn wanted_by(names: Seq<String>) -> spec_fn(JsonData) -> bool {
    |a: JsonData| name_wanted(a, names)
}

/// The attachments to download: all of them for the pattern `*`,
/// otherwise those whose file name contains one of `filenames` (partial
/// names match), in the order they came in.
pub fn filterattachments(attachments: Vec<Json>, filenames: Vec<String>) -> (res: Vec<Json>)
    requires
        !selects_all(filenames@) ==> all_named(items_view(attachments@)),
    ensures
        selects_all(filenames@) ==> items_view(res@) == items_view(attachments@),
        !selects_all(filenames@) ==> items_view(res@) == items_view(attachments@).filter(wanted_by(filenames@)),
{
    let star = filenames.len() == 1 && filenames[0] == "*".to_owned();
    if star {
        return attachments;
    }
    let ghost a = items_view(attachments@);
    let ghost pred = wanted_by(filenames@);
    let mut filtered: Vec<Json> = Vec::new();
    let mut i: usize = 0;
    while i < attachments.len()
        invariant
            a == items_view(attachments@),
            pred == wanted_by(filenames@),
            all_named(a),
            i <= attachments.len(),
            items_view(filtered@) == a.subrange(0, i as int).filter(pred),
        decreases attachments.len() - i,
    {
        reveal_with_fuel(Seq::<_>::filter, 1);
        let item = &attachments[i];
        assert(a[i as int] == item@);
        let fname = match item.field("filename") {
            Some(f) => match f.as_str() {
                Some(s) => s.clone(),
                None => String::new(),
            },
            None => String::new(),
        };
        assert(fname@ == attachment_name(item@));
        let mut isin = false;
        let mut k: usize = 0;
        while k < filenames.len()
            invariant
                k <= filenames.len(),
                isin == exists|q: int| 0 <= q < k && contains_seq(fname@, #[trigger] filenames@[q]@),
            decreases filenames.len() - k,
        {
            if contains_text(fname.as_str(), filenames[k].as_str()) {
                isin = true;
            }
            k = k + 1;
        }
        assert(isin == pred(item@));
        let ghost before = items_view(filtered@);
        assert(a.subrange(0, i + 1).drop_last() =~= a.subrange(0, i as int));
        if isin {
            filtered.push(item.deep_clone());
            assert(items_view(filtered@) =~= before.push(item@));
        } else {
            assert(items_view(filtered@) =~= before);
        }
        i = i + 1;
    }
    assert(a.subrange(0, attachments.len() as int) =~= a);
    filtered
}

/// The listing line of the attachment numbered `n` (from 1): file name,
/// size and description, each as printed in JSON, in the order of the
/// header's columns.
pub open spec fn attachment_line(n: nat, a: JsonData) -> Seq<char> {
    seq!['\t'] + decimal(n) + " - "@ + compact(a.get("filename"@)) + seq!['\t'] + compact(a.get("filesize"@))
        + seq!['\t'] + compact(a.get("description"@))
}

/// An attachment document with the members that the listing prints.
pub open spec fn listable(a: JsonData) -> bool {
    a.field("filename"@) is Some && a.field("filesize"@) is Some && a.field("description"@) is Some
}

/// `k` is where the listing stops: every attachment before it is listable,
/// and it is either the end or an attachment that is not.
pub open spec fn listing_stop(a: Seq<JsonData>, k: int) -> bool {
    &&& 0 <= k <= a.len()
    &&& forall|j: int| 0 <= j < k ==> listable(#[trigger] a[j])
    &&& (k < a.len() ==> !listable(a[k]))
}

/// The lines printed for a list of attachments: their number, a header,
/// and one line per attachment, up to the first one that lacks a file
/// name, size or description; the flag says whether all were listed.
pub fn attachment_summary(attachments: &Vec<Json>) -> (res: (Vec<String>, bool))
    ensures
        exists|k: int|
            #![trigger listing_stop(items_view(attachments@), k)]
            listing_stop(items_view(attachments@), k) && res.0@.len() == k + 2 && (res.1 <==> k
                == attachments@.len()),
        res.0@.len() >= 2,
        res.0@[0]@ == "Number of Attachments: "@ + decimal(attachments@.len()),
        res.0@[1]@ == "Number\tName\tSize\tDescription"@,
        forall|i: int|
            2 <= i < res.0@.len() ==> #[trigger] res.0@[i]@ == attachment_line((i - 1) as nat, attachments@[i - 2]@),
        forall|i: int|
            2 <= i < res.0@.len() ==> #[trigger] res.0@[i]@ == seq!['\t'] + decimal((i - 1) as nat) + " - "@ + compact(
                attachments@[i - 2]@.get("filename"@),
            ) + seq!['\t'] + compact(attachments@[i - 2]@.get("filesize"@)) + seq!['\t'] + compact(
                attachments@[i - 2]@.get("description"@),
            ),
{
    let ghost a = items_view(attachments@);
    let mut lines: Vec<String> = Vec::new();
    let mut first = "Number of Attachments: ".to_owned();
    push_decimal(&mut first, attachments.len() as u64);
    lines.push(first);
    lines.push("Number\tName\tSize\tDescription".to_owned());
    let mut i: usize = 0;
    while i < attachments.len()
        invariant
            a == items_view(attachments@),
            i <= attachments.len(),
            lines@.len() == i + 2,
            lines@[0]@ == "Number of Attachments: "@ + decimal(attachments@.len()),
            lines@[1]@ == "Number\tName\tSize\tDescription"@,
            forall|j: int| 0 <= j < i ==> listable(#[trigger] a[j]),
            forall|j: int|
                2 <= j < lines@.len() ==> #[trigger] lines@[j]@ == attachment_line((j - 1) as nat, attachments@[j - 2]@),
        decreases attachments.len() - i,
    {
        let item = &attachments[i];
        assert(a[i as int] == item@);
        let fname = item.field("filename");
        let fsize = item.field("filesize");
        let fdescription = item.field("description");
        if fname.is_none() || fsize.is_none() || fdescription.is_none() {
            assert(listing_stop(a, i as int));
            return (lines, false);
        }
        let mut line = String::new();
        push_char(&mut line, '\t');
        push_decimal(&mut line, (i + 1) as u64);
        line.append(" - ");
        write_compact(&mut line, fname.unwrap());
        push_char(&mut line, '\t');
        write_compact(&mut line, fsize.unwrap());
        push_char(&mut line, '\t');
        write_compact(&mut line, fdescription.unwrap());
        assert(line@ =~= attachment_line((i + 1) as nat, item@));
        lines.push(line);
        i = i + 1;
    }
    assert(listing_stop(a, attachments.len() as int));
    (lines, true)
}

/// The token of a finished upload: `upload.token` of the server's reply.
pub fn upload_token(reply: &Json) -> (res: Option<String>)
    ensures
        match res {
            Some(t) => reply@.get("upload"@).get("token"@) == JsonData::Str(t@),
            None => !(reply@.get("upload"@).get("token"@) is Str),
        },
{
    match reply.field("upload") {
        Some(u) => match u.field("token") {
            Some(t) => match t.as_str() {
                Some(s) => Some(s.clone()),
                None => None,
            },
            None => None,
        },
        None => None,
    }
}


/// Reading a session back from its document gives the same address and
/// key: `deserializesession(serializesession(s))` is `s`.
pub proof fn law_session_roundtrip(url: Seq<char>, apikey: Seq<char>)
    ensures
        session_json(url, apikey).get("url"@) == JsonData::Str(url),
        session_json(url, apikey).get("apikey"@) == JsonData::Str(apikey),
{
    reveal_strlit("url");
    reveal_strlit("apikey");
    let e = seq![("apikey"@, JsonData::Str(apikey)), ("url"@, JsonData::Str(url))];
    assert("apikey"@ != "url"@) by {
        assert("apikey"@[0] != "url"@[0]);
    }
    crate::json::lemma_get_at(e, "apikey"@, 0);
    assert(key_at(e, "url"@, 1));
    crate::json::lemma_get_at(e, "url"@, 1);
}

/// The attachments chosen by names other than `*` are those whose file
/// name contains one of the names; none is dropped that matches.
pub proof fn law_filter_keeps_matches(a: Seq<JsonData>, names: Seq<String>)
    ensures
        forall|i: int|
            0 <= i < a.filter(wanted_by(names)).len() ==> name_wanted(#[trigger] a.filter(wanted_by(names))[i], names),
        forall|i: int| 0 <= i < a.len() && name_wanted(a[i], names) ==> #[trigger] a.filter(wanted_by(names)).contains(a[i]),
{
    broadcast use vstd::seq_lib::group_filter_ensures;

}


proof fn lemma_filter_within(a: Seq<JsonData>, pred: spec_fn(JsonData) -> bool)
    ensures
        forall|j: int| 0 <= j < a.filter(pred).len() ==> a.contains(#[trigger] a.filter(pred)[j]),
    decreases a.len(),
{
    reveal_with_fuel(Seq::<_>::filter, 1);
    if a.len() > 0 {
        let s = a.drop_last();
        lemma_filter_within(s, pred);
        let r = a.filter(pred);
        assert forall|j: int| 0 <= j < r.len() implies a.contains(#[trigger] r[j]) by {
            if j < s.filter(pred).len() {
                assert(r[j] == s.filter(pred)[j]);
                let q = choose|q: int| 0 <= q < s.len() && s[q] == r[j];
                assert(a[q] == s[q]);
            } else {
                assert(r[j] == a[a.len() - 1]);
            }
        }
    }
}

/// An attachment is selected by names other than `*` exactly when its
/// whole file name contains one of the names as a run of characters: every
/// such attachment is in the result (so a full file name selects its own
/// attachment), and every attachment in the result is one of the given
/// attachments whose file name contains one of the names.
pub proof fn law_filter_selects_by_name(a: Seq<JsonData>, names: Seq<String>)
    ensures
        forall|i: int, k: int, p: int|
            #![trigger a[i], names[k], a[i].get("filename"@)->Str_0.subrange(p, p + names[k]@.len())]
            0 <= i < a.len() && 0 <= k < names.len() && a[i].get("filename"@) is Str && 0 <= p && p + names[k]@.len()
                <= a[i].get("filename"@)->Str_0.len() && a[i].get("filename"@)->Str_0.subrange(p, p + names[k]@.len())
                == names[k]@ ==> a.filter(wanted_by(names)).contains(a[i]),
        forall|j: int|
            0 <= j < a.filter(wanted_by(names)).len() ==> a.contains(#[trigger] a.filter(wanted_by(names))[j])
                && exists|k: int, p: int|
                0 <= k < names.len() && 0 <= p && p + names[k]@.len() <= a.filter(wanted_by(names))[j].get(
                    "filename"@,
                )->Str_0.len() && #[trigger] a.filter(wanted_by(names))[j].get("filename"@)->Str_0.subrange(
                    p,
                    p + names[k]@.len(),
                ) == names[k]@,
{
    broadcast use vstd::seq_lib::group_filter_ensures;

    let r = a.filter(wanted_by(names));
    lemma_filter_within(a, wanted_by(names));
    assert forall|i: int, k: int, p: int|
        #![trigger a[i], names[k], a[i].get("filename"@)->Str_0.subrange(p, p + names[k]@.len())]
        0 <= i < a.len() && 0 <= k < names.len() && a[i].get("filename"@) is Str && 0 <= p && p + names[k]@.len()
            <= a[i].get("filename"@)->Str_0.len() && a[i].get("filename"@)->Str_0.subrange(p, p + names[k]@.len())
            == names[k]@ implies r.contains(a[i]) by {
        assert(contains_seq(attachment_name(a[i]), names[k]@));
        assert(name_wanted(a[i], names));
        assert(wanted_by(names)(a[i]));
    }
    assert forall|j: int| 0 <= j < r.len() implies a.contains(#[trigger] r[j]) && exists|k: int, p: int|
        0 <= k < names.len() && 0 <= p && p + names[k]@.len() <= r[j].get("filename"@)->Str_0.len()
            && #[trigger] r[j].get("filename"@)->Str_0.subrange(p, p + names[k]@.len()) == names[k]@ by {
        assert(wanted_by(names)(r[j]));
        let k = choose|k: int| 0 <= k < names.len() && contains_seq(attachment_name(r[j]), #[trigger] names[k]@);
        let p = choose|p: int|
            0 <= p && p + names[k]@.len() <= attachment_name(r[j]).len() && #[trigger] attachment_name(r[j]).subrange(
                p,
                p + names[k]@.len(),
            ) == names[k]@;
        assert(r[j].get("filename"@)->Str_0.subrange(p, p + names[k]@.len()) == names[k]@);
    }
}

/// Every name of `f1` is also a name of `f2`.
pub open spec fn names_within(f1: Seq<String>, f2: Seq<String>) -> bool {
    forall|k: int| 0 <= k < f1.len() ==> exists|q: int| 0 <= q < f2.len() && #[trigger] f2[q]@ == #[trigger] f1[k]@
}

proof fn lemma_wanted_within(x: JsonData, f1: Seq<String>, f2: Seq<String>)
    requires
        names_within(f1, f2),
        name_wanted(x, f1),
    ensures
        name_wanted(x, f2),
{
    let k = choose|k: int| 0 <= k < f1.len() && contains_seq(attachment_name(x), #[trigger] f1[k]@);
    let q = choose|q: int| 0 <= q < f2.len() && #[trigger] f2[q]@ == f1[k]@;
    assert(contains_seq(attachment_name(x), f2[q]@));
}

/// More names never drop a match: what names `f1` select is what names
/// `f2` select, filtered again by `f1`, when every name of `f1` is among
/// `f2`; so the first selection is a subsequence of the second.
pub proof fn law_more_names_keep_matches(a: Seq<JsonData>, f1: Seq<String>, f2: Seq<String>)
    requires
        names_within(f1, f2),
    ensures
        a.filter(wanted_by(f1)) == a.filter(wanted_by(f2)).filter(wanted_by(f1)),
    decreases a.len(),
{
    reveal_with_fuel(Seq::<_>::filter, 1);
    let p1 = wanted_by(f1);
    let p2 = wanted_by(f2);
    if a.len() > 0 {
        let s = a.drop_last();
        let x = a.last();
        law_more_names_keep_matches(s, f1, f2);
        if p2(x) {
            let t = s.filter(p2).push(x);
            assert(t.drop_last() =~= s.filter(p2));
            assert(a.filter(p2) == t);
        } else {
            if p1(x) {
                lemma_wanted_within(x, f1, f2);
            }
            assert(a.filter(p2) == s.filter(p2));
        }
    }
}

/// Whether `filterattachments` accepts the arguments: unless the single
/// name is `*`, every attachment needs a string file name.
pub fn filter_allowed(attachments: &Vec<Json>, filenames: &Vec<String>) -> (res: bool)
    ensures
        res == (!selects_all(filenames@) ==> all_named(items_view(attachments@))),
{
    if filenames.len() == 1 && filenames[0] == "*".to_owned() {
        return true;
    }
    let mut i: usize = 0;
    while i < attachments.len()
        invariant
            !selects_all(filenames@),
            i <= attachments.len(),
            forall|j: int| 0 <= j < i ==> (#[trigger] items_view(attachments@)[j]).get("filename"@) is Str,
        decreases attachments.len() - i,
    {
        let named = match attachments[i].field("filename") {
            Some(f) => f.as_str().is_some(),
            None => false,
        };
        if !named {
            assert(!(items_view(attachments@)[i as int].get("filename"@) is Str));
            return false;
        }
        i = i + 1;
    }
    true
}

} // verus!
