//! The records of a filled-in custom-field template (`id,name,value`) and
//! the JSON documents sent to the server for them.
use vstd::prelude::*;
use vstd::string::*;
use crate::json::{Json, JsonData, JsonNumber, items_view};

verus! {

/// One line of the template.
#[derive(Debug)]
pub struct CustomFieldRecord {
    pub id: usize,
    pub name: String,
    pub value: String,
}

/// The value of a record: its id, name and value.
pub type RecordData = (usize, Seq<char>, Seq<char>);

impl CustomFieldRecord {
    pub open spec fn data(&self) -> RecordData {
        (self.id, self.name@, self.value@)
    }
}

/// The document of a record: `{"id": .., "name": .., "value": ..}`.
pub open spec fn record_json(r: RecordData) -> JsonData {
    JsonData::Object(seq![
        ("id"@, JsonData::PosInt(r.0 as u64)),
        ("name"@, JsonData::Str(r.1)),
        ("value"@, JsonData::Str(r.2)),
    ])
}

impl CustomFieldRecord {
    /// The record as a JSON document (`json!(record)`).
    pub fn to_json(&self) -> (res: Json)
        ensures
            res@ == record_json(self.data()),
            res@.get("id"@) == JsonData::PosInt(self.id as u64),
            res@.get("name"@) == JsonData::Str(self.name@),
            res@.get("value"@) == JsonData::Str(self.value@),
    {
        let mut m: Vec<(String, Json)> = Vec::new();
        m.push(("id".to_owned(), Json::Number(JsonNumber::PosInt(self.id as u64))));
        m.push(("name".to_owned(), Json::Str(self.name.clone())));
        m.push(("value".to_owned(), Json::Str(self.value.clone())));
        proof {
            crate::json::lemma_object_view(m);
            assert(crate::json::entries_view(m@) =~= record_json(self.data())->Object_0);
            law_record_members(self.data());
        }
        Json::Object(m)
    }
}

/// The document of a record carries the record unchanged: its `id`,
/// `name` and `value` members read as the record's id, name and value.
pub proof fn law_record_members(r: RecordData)
    ensures
        record_json(r).get("id"@) == JsonData::PosInt(r.0 as u64),
        record_json(r).get("name"@) == JsonData::Str(r.1),
        record_json(r).get("value"@) == JsonData::Str(r.2),
{
    reveal_strlit("id");
    reveal_strlit("name");
    reveal_strlit("value");
    let e = record_json(r)->Object_0;
    assert("id"@ != "name"@ && "id"@ != "value"@ && "name"@ != "value"@) by {
        assert("id"@.len() == 2 && "name"@.len() == 4 && "value"@.len() == 5);
    }
    assert(crate::json::key_at(e, "id"@, 0));
    assert(crate::json::key_at(e, "name"@, 1));
    assert(crate::json::key_at(e, "value"@, 2));
    crate::json::lemma_get_at(e, "id"@, 0);
    crate::json::lemma_get_at(e, "name"@, 1);
    crate::json::lemma_get_at(e, "value"@, 2);
}

/// The custom-field documents of a template's records: one
/// `{"id": .., "name": .., "value": ..}` per record, in order.
pub fn custom_fields_from_records(records: &Vec<CustomFieldRecord>) -> (res: Vec<Json>)
    ensures
        items_view(res@) == records@.map_values(|c: CustomFieldRecord| record_json(c.data())),
        res@.len() == records@.len(),
        forall|i: int|
            0 <= i < records@.len() ==> (#[trigger] res@[i])@.get("id"@) == JsonData::PosInt(records@[i].id as u64)
                && res@[i]@.get("name"@) == JsonData::Str(records@[i].name@) && res@[i]@.get("value"@)
                == JsonData::Str(records@[i].value@),
{
    let ghost target = records@.map_values(|c: CustomFieldRecord| record_json(c.data()));
    let mut out: Vec<Json> = Vec::new();
    let mut i: usize = 0;
    while i < records.len()
        invariant
            target == records@.map_values(|c: CustomFieldRecord| record_json(c.data())),
            i <= records.len(),
            out@.len() == i,
            items_view(out@) == target.subrange(0, i as int),
        decreases records.len() - i,
    {
        let j = records[i].to_json();
        let ghost before = out@;
        let ghost jv = j@;
        assert(target.len() == records@.len());
        assert(before.len() == i);
        out.push(j);
        proof {
            assert(out@[i as int]@ == jv);
            assert(target[i as int] == record_json(records@[i as int].data()));
            assert forall|k: int| 0 <= k < i + 1 implies #[trigger] items_view(out@)[k] == target.subrange(0, i + 1)[k] by {
                if k < i {
                    assert(out@[k] == before[k]);
                    assert(items_view(before)[k] == target.subrange(0, i as int)[k]);
                }
            }
        }
        assert(items_view(out@) =~= target.subrange(0, i + 1));
        i = i + 1;
    }
    assert(target.subrange(0, records.len() as int) =~= target);
    proof {
        assert forall|i: int| 0 <= i < records@.len() implies (#[trigger] out@[i])@.get("id"@) == JsonData::PosInt(
            records@[i].id as u64,
        ) && out@[i]@.get("name"@) == JsonData::Str(records@[i].name@) && out@[i]@.get("value"@) == JsonData::Str(
            records@[i].value@,
        ) by {
            assert(items_view(out@)[i] == out@[i]@);
            law_record_members(records@[i].data());
        }
    }
    out
}

} // verus!
