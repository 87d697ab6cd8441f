//! Building and editing issue documents: custom fields, notes, status and
//! the CSV template of an issue's custom fields.
use vstd::prelude::*;
use vstd::string::*;
use crate::json::{Json, JsonData, JsonNumber, items_view, lemma_array_view, lemma_get_set_same, lemma_get_set_other};
use crate::json_text::{compact, null_text, escape, quoted, write_compact, to_compact_string, compact_not_lone_quote};
use crate::text::{decimal, push_char, push_decimal};

verus! {

/// `s` with every line feed that does not follow a carriage return turned
/// into a carriage return and a line feed.
pub open spec fn dos_newlines(s: Seq<char>) -> Seq<char>
    decreases s.len(),
{
    if s.len() == 0 {
        s
    } else {
        let prev = dos_newlines(s.drop_last());
        if s.last() == '\n' && !(s.len() >= 2 && s[s.len() - 2] == '\r') {
            prev + seq!['\r', '\n']
        } else {
            prev.push(s.last())
        }
    }
}

/// Converts UNIX line breaks to DOS ones (`newline_converter::unix2dos`).
#[verifier::external_body]
fn unix_to_dos(s: &str) -> (res: String)
    ensures
        res@ == dos_newlines(s@),
{
    newline_converter::unix2dos(s).into_owned()
}

/// The text between a leading and a trailing double quote, if `s` has both.
pub open spec fn strip_dquotes_spec(s: Seq<char>) -> Option<Seq<char>> {
    if s.len() >= 2 && s[0] == '"' && s[s.len() - 1] == '"' {
        Some(s.subrange(1, s.len() - 1))
    } else {
        None
    }
}

/// Removes surrounding double quotes (`quoted_string::strip_dquotes`); that
/// function slices out of range on a lone quote, which is excluded.
#[verifier::external_body]
fn strip_dquotes(s: &str) -> (res: Option<String>)
    requires
        s@ != seq!['"'],
    ensures
        match res {
            Some(t) => strip_dquotes_spec(s@) == Some(t@),
            None => strip_dquotes_spec(s@) is None,
        },
{
    quoted_string::strip_dquotes(s).map(|t| t.to_string())
}

/// The custom fields of an issue document: `issue.custom_fields`.
pub open spec fn custom_fields_of(issue: JsonData) -> JsonData {
    issue.get("issue"@).get("custom_fields"@)
}

/// A custom field whose `name` member is the string `name`.
pub open spec fn field_named(f: JsonData, name: Seq<char>) -> bool {
    f.get("name"@).as_str() == Some(name)
}

/// A custom field whose `id` member is the unsigned integer `id`.
pub open spec fn field_with_id(f: JsonData, id: u64) -> bool {
    f.get("id"@).as_u64() == Some(id)
}

/// `i` is the first position of a field named `name`.
pub open spec fn first_named(a: Seq<JsonData>, name: Seq<char>, i: int) -> bool {
    0 <= i < a.len() && field_named(a[i], name) && forall|j: int| 0 <= j < i ==> !field_named(#[trigger] a[j], name)
}

/// `i` is the first position of a field with id `id`.
pub open spec fn first_with_id(a: Seq<JsonData>, id: u64, i: int) -> bool {
    0 <= i < a.len() && field_with_id(a[i], id) && forall|j: int| 0 <= j < i ==> !field_with_id(#[trigger] a[j], id)
}

/// The custom fields of `issue` (`issue["issue"]["custom_fields"]`); null
/// when the issue has none.
pub fn get_custom_fields(issue: Json) -> (res: Json)
    ensures
        res@ == custom_fields_of(issue@),
{
    match issue.field("issue") {
        Some(inner) => match inner.field("custom_fields") {
            Some(f) => f.deep_clone(),
            None => Json::Null,
        },
        None => Json::Null,
    }
}

/// The first custom field named `name` (case sensitive), or a message
/// saying that there is none.
pub fn get_custom_field_by_name(name: String, custom_fields: Json) -> (res: Result<Json, String>)
    requires
        custom_fields@ is Array,
    ensures
        match res {
            Ok(f) => exists|i: int| first_named(custom_fields@->Array_0, name@, i) && f@ == custom_fields@->Array_0[i],
            Err(msg) => (forall|i: int| 0 <= i < custom_fields@->Array_0.len() ==> !field_named(
                #[trigger] custom_fields@->Array_0[i],
                name@,
            )) && msg@ == name@ + " not found in custom fields\n"@,
        },
{
    let v = custom_fields.as_array().unwrap();
    let ghost a = items_view(v@);
    let mut i: usize = 0;
    while i < v.len()
        invariant
            custom_fields@ == JsonData::Array(a),
            a == items_view(v@),
            i <= v.len(),
            forall|j: int| 0 <= j < i ==> !field_named(#[trigger] a[j], name@),
        decreases v.len() - i,
    {
        let f = &v[i];
        let matched = match f.field("name") {
            Some(n) => match n.as_str() {
                Some(s) => *s == name,
                None => false,
            },
            None => false,
        };
        if matched {
            assert(first_named(a, name@, i as int));
            let r = f.deep_clone();
            assert(r@ == custom_fields@->Array_0[i as int]);
            return Ok(r);
        }
        i = i + 1;
    }
    let mut msg = name.clone();
    msg.append(" not found in custom fields\n");
    Err(msg)
}

/// The first custom field whose id is `id`, or a message saying that there
/// is none.
pub fn get_custom_field_by_id(id: usize, custom_fields: Json) -> (res: Result<Json, String>)
    requires
        custom_fields@ is Array,
    ensures
        match res {
            Ok(f) => exists|i: int| first_with_id(custom_fields@->Array_0, id as u64, i) && f@ == custom_fields@->Array_0[i],
            Err(msg) => (forall|i: int| 0 <= i < custom_fields@->Array_0.len() ==> !field_with_id(
                #[trigger] custom_fields@->Array_0[i],
                id as u64,
            )) && msg@ == "Field with id "@ + decimal(id as nat) + " not found in custom fields\n"@,
        },
{
    let v = custom_fields.as_array().unwrap();
    let ghost a = items_view(v@);
    let mut i: usize = 0;
    while i < v.len()
        invariant
            custom_fields@ == JsonData::Array(a),
            a == items_view(v@),
            i <= v.len(),
            forall|j: int| 0 <= j < i ==> !field_with_id(#[trigger] a[j], id as u64),
        decreases v.len() - i,
    {
        let f = &v[i];
        let matched = match f.field("id") {
            Some(n) => match n.as_u64() {
                Some(u) => u == id as u64,
                None => false,
            },
            None => false,
        };
        if matched {
            assert(first_with_id(a, id as u64, i as int));
            let r = f.deep_clone();
            assert(r@ == custom_fields@->Array_0[i as int]);
            return Ok(r);
        }
        i = i + 1;
    }
    let mut msg = String::new();
    msg.append("Field with id ");
    push_decimal(&mut msg, id as u64);
    msg.append(" not found in custom fields\n");
    Err(msg)
}


/// Replaces the `value` member of a custom field (`field["value"] = newvalue`).
pub fn update_custom_field_value(newvalue: &str, custom_field: Json) -> (res: Result<Json, String>)
    requires
        custom_field@.accepts_member(),
    ensures
        match res {
            Ok(f) => f@ == custom_field@.set("value"@, JsonData::Str(newvalue@)),
            Err(_) => false,
        },
{
    let mut f = custom_field;
    let v = Json::Str(newvalue.to_owned());
    f.set("value", v);
    Ok(f)
}

/// The document of an issue update with no custom fields yet:
/// `{"issue":{"custom_fields":[]}}`.
pub open spec fn empty_issue() -> JsonData {
    JsonData::Object(seq![("issue"@, JsonData::Object(seq![("custom_fields"@, JsonData::Array(Seq::empty()))]))])
}

/// Creates `{"issue":{"custom_fields":[]}}`.
pub fn create_emty_issue() -> (res: Json)
    ensures
        res@ == empty_issue(),
{
    let a: Vec<Json> = Vec::new();
    proof {
        lemma_array_view(a);
        assert(items_view(a@) =~= Seq::<JsonData>::empty());
    }
    let mut inner = Json::Null;
    inner.set("custom_fields", Json::Array(a));
    let mut issue = Json::Null;
    issue.set("issue", inner);
    issue
}

/// The issue document with its `issue.private_notes` set to true when `is_private`.
pub open spec fn with_private_flag(issue: JsonData, is_private: bool) -> JsonData {
    if is_private {
        issue.set("issue"@, issue.get("issue"@).set("private_notes"@, JsonData::Bool(true)))
    } else {
        issue
    }
}

/// The note written by `add_note_issue`: the message with DOS line breaks,
/// then, when the issue already had notes, a line feed and those notes as
/// printed in JSON without their enclosing quotes.
pub open spec fn note_text(message: Seq<char>, notes: JsonData) -> Seq<char> {
    let base = dos_newlines(message);
    let m = compact(notes);
    if m == null_text() {
        base
    } else {
        base + seq!['\n'] + match strip_dquotes_spec(m) {
            Some(t) => t,
            None => m,
        }
    }
}

/// The issue document after `add_note_issue`.
pub open spec fn issue_with_note(issue: JsonData, message: Seq<char>, is_private: bool) -> JsonData {
    let i1 = with_private_flag(issue, is_private);
    i1.set("issue"@, i1.get("issue"@).set("notes"@, JsonData::Str(note_text(message, i1.get("issue"@).get("notes"@)))))
}

/// Adds `message` as the note of an issue update, in front of any note
/// already there; a private note also sets `private_notes`.
pub fn add_note_issue(issue: Json, message: String, is_private: bool) -> (res: Json)
    requires
        is_private ==> issue@.get("issue"@) is Object,
        issue@.accepts_member(),
        issue@.get("issue"@).accepts_member(),
    ensures
        res@ == issue_with_note(issue@, message@, is_private),
        forall|k: Seq<char>|
            k != "notes"@ && k != "private_notes"@ ==> #[trigger] res@.get("issue"@).get(k) == issue@.get(
                "issue"@,
            ).get(k),
        forall|top: Seq<char>| top != "issue"@ ==> #[trigger] res@.get(top) == issue@.get(top),
{
    let ghost orig = issue@;
    let mut issue = issue;
    if is_private {
        issue.set_in("issue", "private_notes", Json::Bool(true));
        proof {
            let old_issue = orig;
            let inner = old_issue.get("issue"@).set("private_notes"@, JsonData::Bool(true));
            lemma_get_set_same(old_issue, "issue"@, inner);
        }
    }
    let ghost i1 = issue@;
    assert(i1 == with_private_flag(orig, is_private));
    assert(i1.accepts_member() && i1.get("issue"@).accepts_member());
    let mut new_message = unix_to_dos(message.as_str());
    let m = match issue.field("issue") {
        Some(inner) => match inner.field("notes") {
            Some(n) => {
                compact_not_lone_quote(n);
                to_compact_string(n)
            },
            None => {
                proof { reveal_strlit("null"); }
                "null".to_owned()
            },
        },
        None => {
            proof { reveal_strlit("null"); }
            "null".to_owned()
        },
    };
    assert(m@ == compact(i1.get("issue"@).get("notes"@)));
    let is_null = m == "null".to_owned();
    proof {
        reveal_strlit("null");
        assert("null"@ =~= null_text());
    }
    let ghost base = new_message@;
    if !is_null {
        push_char(&mut new_message, '\n');
        match strip_dquotes(m.as_str()) {
            Some(t) => new_message.append(t.as_str()),
            None => new_message.append(m.as_str()),
        }
    }
    proof {
        let notes = i1.get("issue"@).get("notes"@);
        if is_null {
            assert(new_message@ == base);
        } else {
            assert(compact(notes) != null_text());
        }
        assert(new_message@ =~= note_text(message@, notes));
    }
    issue.set_in("issue", "notes", Json::Str(new_message));
    proof {
        assert forall|k: Seq<char>| k != "notes"@ && k != "private_notes"@ implies #[trigger] issue@.get("issue"@).get(k)
            == orig.get("issue"@).get(k) by {
            law_note_keeps_other_members(orig, message@, is_private, k);
        }
        assert forall|top: Seq<char>| top != "issue"@ implies #[trigger] issue@.get(top) == orig.get(top) by {
            law_note_keeps_top_members(orig, message@, is_private, top);
        }
    }
    issue
}

/// Sets the status of an issue update (`issue["issue"]["status_id"] = id`).
#[allow(non_snake_case)]
pub fn modify_issue_status_byID(issue: Json, id: u64) -> (res: Json)
    requires
        issue@.accepts_member(),
        issue@.get("issue"@).accepts_member(),
    ensures
        res@ == issue@.set("issue"@, issue@.get("issue"@).set("status_id"@, JsonData::PosInt(id))),
{
    let mut issue = issue;
    issue.set_in("issue", "status_id", Json::Number(JsonNumber::PosInt(id)));
    issue
}

/// Appends a custom field to `issue.custom_fields`.
pub fn push_custom_field(issue: Json, custom_field: Json) -> (res: Json)
    requires
        custom_fields_of(issue@) is Array,
    ensures
        res@ == issue@.set(
            "issue"@,
            issue@.get("issue"@).set(
                "custom_fields"@,
                JsonData::Array(custom_fields_of(issue@)->Array_0.push(custom_field@)),
            ),
        ),
{
    let mut issue = issue;
    issue.push_in("issue", "custom_fields", custom_field);
    issue
}

/// The lines of the CSV template for the given custom fields: each field's
/// id and name as printed in JSON, followed by an empty value.
pub open spec fn template_lines(a: Seq<JsonData>) -> Seq<char>
    decreases a.len(),
{
    if a.len() == 0 {
        Seq::empty()
    } else {
        template_lines(a.drop_last()) + compact(a.last().get("id"@)) + seq![','] + compact(
            a.last().get("name"@),
        ) + seq![',', '\n']
    }
}

/// The CSV template of an issue's custom fields: a header `id,name,value`
/// and one line per field.
pub fn create_issue_template(issue: Json) -> (res: String)
    requires
        custom_fields_of(issue@) is Array,
    ensures
        res@ == "id,name,value\n"@ + template_lines(custom_fields_of(issue@)->Array_0),
{
    let mut template = String::new();
    template.append("id,name,value\n");
    let ghost head = template@;
    let custom_fields = get_custom_fields(issue);
    let v = custom_fields.as_array().unwrap();
    let ghost a = items_view(v@);
    let mut i: usize = 0;
    while i < v.len()
        invariant
            a == items_view(v@),
            i <= v.len(),
            template@ == head + template_lines(a.subrange(0, i as int)),
        decreases v.len() - i,
    {
        let f = &v[i];
        match f.field("id") {
            Some(x) => write_compact(&mut template, x),
            None => write_compact(&mut template, &Json::Null),
        }
        push_char(&mut template, ',');
        match f.field("name") {
            Some(x) => write_compact(&mut template, x),
            None => write_compact(&mut template, &Json::Null),
        }
        push_char(&mut template, ',');
        push_char(&mut template, '\n');
        proof {
            let sub = a.subrange(0, i + 1);
            assert(sub.drop_last() =~= a.subrange(0, i as int));
        }
        assert(template@ =~= head + template_lines(a.subrange(0, i + 1)));
        i = i + 1;
    }
    assert(a.subrange(0, v.len() as int) =~= a);
    template
}


/// After `update_custom_field_value`, the field reads back the new value,
/// and its id and name are those it had, so it is still found by them.
pub proof fn law_updated_field_reads_back(field: JsonData, v: Seq<char>)
    requires
        field.accepts_member(),
    ensures
        field.set("value"@, JsonData::Str(v)).get("value"@) == JsonData::Str(v),
        field.set("value"@, JsonData::Str(v)).get("id"@) == field.get("id"@),
        field.set("value"@, JsonData::Str(v)).get("name"@) == field.get("name"@),
{
    reveal_strlit("value");
    reveal_strlit("id");
    reveal_strlit("name");
    lemma_get_set_same(field, "value"@, JsonData::Str(v));
    assert("value"@ != "id"@) by {
        assert("value"@.len() != "id"@.len());
    }
    assert("value"@ != "name"@) by {
        assert("value"@[0] != "name"@[0]);
    }
    lemma_get_set_other(field, "value"@, "id"@, JsonData::Str(v));
    lemma_get_set_other(field, "value"@, "name"@, JsonData::Str(v));
}

/// `push_custom_field` appends: the custom fields afterwards are the ones
/// before followed by the new field.
pub proof fn law_push_appends(issue: JsonData, field: JsonData)
    requires
        custom_fields_of(issue) is Array,
    ensures
        custom_fields_of(
            issue.set(
                "issue"@,
                issue.get("issue"@).set(
                    "custom_fields"@,
                    JsonData::Array(custom_fields_of(issue)->Array_0.push(field)),
                ),
            ),
        ) == JsonData::Array(custom_fields_of(issue)->Array_0.push(field)),
{
    let inner = issue.get("issue"@);
    let arr = JsonData::Array(custom_fields_of(issue)->Array_0.push(field));
    assert(inner is Object);
    assert(issue is Object);
    lemma_get_set_same(inner, "custom_fields"@, arr);
    lemma_get_set_same(issue, "issue"@, inner.set("custom_fields"@, arr));
}

/// The empty issue has no custom fields, so its template is the header line alone.
pub proof fn law_empty_issue_template()
    ensures
        custom_fields_of(empty_issue()) == JsonData::Array(Seq::empty()),
        template_lines(custom_fields_of(empty_issue())->Array_0) == Seq::<char>::empty(),
{
    let inner = JsonData::Object(seq![("custom_fields"@, JsonData::Array(Seq::empty()))]);
    crate::json::lemma_get_at(seq![("issue"@, inner)], "issue"@, 0);
    crate::json::lemma_get_at(seq![("custom_fields"@, JsonData::Array(Seq::empty()))], "custom_fields"@, 0);
}

/// A note added to an issue that already has a text note is written in
/// front of it: the new message with DOS line breaks, a line feed, then the
/// old note as escaped in JSON.
pub proof fn law_note_keeps_old_note(message: Seq<char>, old: Seq<char>)
    ensures
        note_text(message, JsonData::Str(old)) == dos_newlines(message) + seq!['\n'] + escape(old),
{
    let m = compact(JsonData::Str(old));
    assert(m == quoted(old));
    assert(m[0] == '"');
    assert(m != null_text());
    assert(m.subrange(1, m.len() - 1) =~= escape(old));
}

/// A note added to an issue without notes is the message alone, with DOS
/// line breaks.
pub proof fn law_note_on_fresh_issue(message: Seq<char>)
    ensures
        note_text(message, JsonData::Null) == dos_newlines(message),
{
}

/// After `add_note_issue`, the issue's notes are the note text.
pub proof fn law_note_is_stored(issue: JsonData, message: Seq<char>, is_private: bool)
    requires
        is_private ==> issue.get("issue"@) is Object,
        issue.accepts_member(),
        issue.get("issue"@).accepts_member(),
    ensures
        issue_with_note(issue, message, is_private).get("issue"@).get("notes"@) == JsonData::Str(
            note_text(message, with_private_flag(issue, is_private).get("issue"@).get("notes"@)),
        ),
{
    let i1 = with_private_flag(issue, is_private);
    if is_private {
        lemma_get_set_same(issue, "issue"@, issue.get("issue"@).set("private_notes"@, JsonData::Bool(true)));
    }
    let note = JsonData::Str(note_text(message, i1.get("issue"@).get("notes"@)));
    lemma_get_set_same(i1.get("issue"@), "notes"@, note);
    lemma_get_set_same(i1, "issue"@, i1.get("issue"@).set("notes"@, note));
}


/// Adding a note touches nothing but the note and the private flag: every
/// other member of `issue` (custom fields, status, ...) reads as before.
pub proof fn law_note_keeps_other_members(issue: JsonData, message: Seq<char>, is_private: bool, k: Seq<char>)
    requires
        is_private ==> issue.get("issue"@) is Object,
        issue.accepts_member(),
        issue.get("issue"@).accepts_member(),
        k != "notes"@,
        k != "private_notes"@,
    ensures
        issue_with_note(issue, message, is_private).get("issue"@).get(k) == issue.get("issue"@).get(k),
{
    let inner = issue.get("issue"@);
    let i1 = with_private_flag(issue, is_private);
    if is_private {
        let flagged = inner.set("private_notes"@, JsonData::Bool(true));
        lemma_get_set_same(issue, "issue"@, flagged);
        lemma_get_set_other(inner, "private_notes"@, k, JsonData::Bool(true));
    }
    let x = i1.get("issue"@);
    assert(x.get(k) == inner.get(k));
    assert(x.accepts_member());
    assert(i1.accepts_member());
    let note = JsonData::Str(note_text(message, x.get("notes"@)));
    lemma_get_set_other(x, "notes"@, k, note);
    lemma_get_set_same(i1, "issue"@, x.set("notes"@, note));
}

/// Adding a note leaves every top-level member other than `issue` as it was.
pub proof fn law_note_keeps_top_members(issue: JsonData, message: Seq<char>, is_private: bool, top: Seq<char>)
    requires
        is_private ==> issue.get("issue"@) is Object,
        issue.accepts_member(),
        issue.get("issue"@).accepts_member(),
        top != "issue"@,
    ensures
        issue_with_note(issue, message, is_private).get(top) == issue.get(top),
{
    let inner = issue.get("issue"@);
    let i1 = with_private_flag(issue, is_private);
    if is_private {
        lemma_get_set_other(issue, "issue"@, top, inner.set("private_notes"@, JsonData::Bool(true)));
    }
    assert(i1.accepts_member());
    let x = i1.get("issue"@);
    let note = JsonData::Str(note_text(message, x.get("notes"@)));
    lemma_get_set_other(i1, "issue"@, top, x.set("notes"@, note));
}

/// The template of several groups of fields is the templates of the groups
/// one after the other: each field gets its own line, whatever comes
/// before or after it.
pub proof fn law_template_lines_concat(a: Seq<JsonData>, b: Seq<JsonData>)
    ensures
        template_lines(a + b) == template_lines(a) + template_lines(b),
    decreases b.len(),
{
    if b.len() == 0 {
        assert(a + b =~= a);
        assert(template_lines(a) + template_lines(b) =~= template_lines(a));
    } else {
        let ab = a + b;
        law_template_lines_concat(a, b.drop_last());
        assert(ab.drop_last() =~= a + b.drop_last());
        let tail = compact(b.last().get("id"@)) + seq![','] + compact(b.last().get("name"@)) + seq![',', '\n'];
        assert(template_lines(ab) =~= template_lines(ab.drop_last()) + tail);
        assert(template_lines(b) =~= template_lines(b.drop_last()) + tail);
        assert(template_lines(ab) =~= template_lines(a) + template_lines(b));
    }
}

/// The template line of one field: its id and name as printed in JSON,
/// each followed by a comma, and a line feed (the value is left empty).
pub proof fn law_template_line_single(f: JsonData)
    ensures
        template_lines(seq![f]) == compact(f.get("id"@)) + seq![','] + compact(f.get("name"@)) + seq![',', '\n'],
{
    assert(seq![f].drop_last() =~= Seq::<JsonData>::empty());
    assert(template_lines(Seq::<JsonData>::empty()) =~= Seq::<char>::empty());
    assert(Seq::<char>::empty() + compact(f.get("id"@)) =~= compact(f.get("id"@)));
}

/// Whether member `issue` of the document, and the document itself, accept
/// a member assignment (what `modify_issue_status_byID` needs).
pub fn issue_assignable(issue: &Json) -> (res: bool)
    ensures
        res == (issue@.accepts_member() && issue@.get("issue"@).accepts_member()),
{
    let inner_ok = match issue.field("issue") {
        Some(i) => i.is_null() || i.is_object(),
        None => true,
    };
    (issue.is_null() || issue.is_object()) && inner_ok
}

/// Whether `add_note_issue` accepts the document: a private note needs
/// member `issue` to be an object.
pub fn note_allowed(issue: &Json, is_private: bool) -> (res: bool)
    ensures
        res == ((is_private ==> issue@.get("issue"@) is Object) && issue@.accepts_member() && issue@.get(
            "issue"@,
        ).accepts_member()),
{
    let inner_object = match issue.field("issue") {
        Some(i) => i.is_object(),
        None => false,
    };
    issue_assignable(issue) && (!is_private || inner_object)
}

} // verus!
