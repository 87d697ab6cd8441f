//! The JSON document model used throughout the library.
use vstd::prelude::*;
use vstd::string::*;
use crate::text::chars_of;

verus! {

/// The mathematical value of a JSON document.
#[verifier::ext_equal]
pub enum JsonData {
    Null,
    Bool(bool),
    PosInt(u64),
    NegInt(i64),
    Float(Seq<char>),
    Str(Seq<char>),
    Array(Seq<JsonData>),
    Object(Seq<(Seq<char>, JsonData)>),
}


/// `a` sorts strictly before `b` in the order of object keys: the first
/// character where they differ is smaller in `a`, or `a` is a proper prefix of `b`.
pub open spec fn key_lt(a: Seq<char>, b: Seq<char>) -> bool {
    exists|i: int|
        #![trigger a.subrange(0, i), b.subrange(0, i)]
        0 <= i <= a.len() && i <= b.len() && a.subrange(0, i) == b.subrange(0, i) && (
        (i == a.len() && i < b.len()) || (i < a.len() && i < b.len() && (a[i] as int) < (b[i] as int)))
}

/// `i` is the first position of an entry with key `k`.
pub open spec fn key_at(e: Seq<(Seq<char>, JsonData)>, k: Seq<char>, i: int) -> bool {
    &&& 0 <= i < e.len()
    &&& e[i].0 == k
    &&& forall|j: int| 0 <= j < i ==> #[trigger] e[j].0 != k
}

pub open spec fn has_key(e: Seq<(Seq<char>, JsonData)>, k: Seq<char>) -> bool {
    exists|i: int| key_at(e, k, i)
}

pub open spec fn key_index(e: Seq<(Seq<char>, JsonData)>, k: Seq<char>) -> int {
    choose|i: int| key_at(e, k, i)
}

/// `j` is the first position whose key sorts after `k`.
pub open spec fn first_after(e: Seq<(Seq<char>, JsonData)>, k: Seq<char>, j: int) -> bool {
    &&& 0 <= j < e.len()
    &&& key_lt(k, e[j].0)
    &&& forall|l: int| 0 <= l < j ==> !key_lt(k, #[trigger] e[l].0)
}

/// Where a new key `k` is placed among the entries: before the first key
/// that sorts after it, or at the end.
pub open spec fn insert_pos(e: Seq<(Seq<char>, JsonData)>, k: Seq<char>) -> int {
    if exists|j: int| first_after(e, k, j) {
        choose|j: int| first_after(e, k, j)
    } else {
        e.len() as int
    }
}

/// The entries after storing `v` under `k`: an existing entry is replaced,
/// otherwise a new one is placed in key order.
pub open spec fn entries_set(e: Seq<(Seq<char>, JsonData)>, k: Seq<char>, v: JsonData) -> Seq<(Seq<char>, JsonData)> {
    if has_key(e, k) {
        e.update(key_index(e, k), (k, v))
    } else {
        e.insert(insert_pos(e, k), (k, v))
    }
}

impl JsonData {
    /// The member `k` of an object, if the document is an object that has it.
    pub open spec fn field(self, k: Seq<char>) -> Option<JsonData> {
        match self {
            JsonData::Object(e) => if has_key(e, k) { Some(e[key_index(e, k)].1) } else { None },
            _ => None,
        }
    }

    /// Reading member `k`: its value, or null when there is none.
    pub open spec fn get(self, k: Seq<char>) -> JsonData {
        match self.field(k) {
            Some(v) => v,
            None => JsonData::Null,
        }
    }

    /// Null and objects accept a member assignment; null becomes an object.
    pub open spec fn accepts_member(self) -> bool {
        self is Null || self is Object
    }

    /// The document after member `k` is assigned `v`.
    pub open spec fn set(self, k: Seq<char>, v: JsonData) -> JsonData {
        match self {
            JsonData::Null => JsonData::Object(seq![(k, v)]),
            JsonData::Object(e) => JsonData::Object(entries_set(e, k, v)),
            _ => self,
        }
    }

    pub open spec fn as_str(self) -> Option<Seq<char>> {
        match self {
            JsonData::Str(s) => Some(s),
            _ => None,
        }
    }

    pub open spec fn as_u64(self) -> Option<u64> {
        match self {
            JsonData::PosInt(u) => Some(u),
            _ => None,
        }
    }

    pub open spec fn as_array(self) -> Option<Seq<JsonData>> {
        match self {
            JsonData::Array(a) => Some(a),
            _ => None,
        }
    }
}

/// The printed form of a finite floating-point number, kept as text.
#[derive(Debug)]
pub struct FloatText {
    text: String,
}

impl FloatText {
    #[verifier::type_invariant]
    closed spec fn inv(self) -> bool {
        float_text_ok(self.text@)
    }
}

pub open spec fn float_text_ok(s: Seq<char>) -> bool {
    s.len() > 0 && (s[0] == '-' || ('0' <= s[0] && s[0] <= '9'))
}

impl View for FloatText {
    type V = Seq<char>;

    closed spec fn view(&self) -> Seq<char> {
        self.text@
    }
}

/// A JSON number: a non-negative integer, a negative integer, or a float
/// kept in its printed form.
#[derive(Debug)]
pub enum JsonNumber {
    PosInt(u64),
    NegInt(i64),
    Float(FloatText),
}

/// A JSON document. Object members are kept in a vector; a member
/// assigned through [`Json::set`] is placed in key order, as in the ordered
/// map that `serde_json` keeps objects in.
#[derive(Debug)]
pub enum Json {
    Null,
    Bool(bool),
    Number(JsonNumber),
    Str(String),
    Array(Vec<Json>),
    Object(Vec<(String, Json)>),
}

/// The value of a document.
pub open spec fn data_of(j: Json) -> JsonData
    decreases j,
{
    match j {
        Json::Null => JsonData::Null,
        Json::Bool(b) => JsonData::Bool(b),
        Json::Number(n) => match n {
            JsonNumber::PosInt(u) => JsonData::PosInt(u),
            JsonNumber::NegInt(i) => JsonData::NegInt(i),
            JsonNumber::Float(f) => JsonData::Float(f@),
        },
        Json::Str(s) => JsonData::Str(s@),
        Json::Array(v) => JsonData::Array(
            Seq::new(v.len() as nat, |i: int| if 0 <= i < v.len() { data_of(v@[i]) } else { JsonData::Null }),
        ),
        Json::Object(m) => JsonData::Object(
            Seq::new(
                m.len() as nat,
                |i: int| if 0 <= i < m.len() { (m@[i].0@, data_of(m@[i].1)) } else { (Seq::empty(), JsonData::Null) },
            ),
        ),
    }
}


/// The value of a sequence of object entries.
pub open spec fn entries_view(m: Seq<(String, Json)>) -> Seq<(Seq<char>, JsonData)> {
    Seq::new(m.len(), |i: int| (m[i].0@, data_of(m[i].1)))
}

/// The value of a sequence of array items.
pub open spec fn items_view(v: Seq<Json>) -> Seq<JsonData> {
    Seq::new(v.len(), |i: int| data_of(v[i]))
}

pub proof fn lemma_object_view(m: Vec<(String, Json)>)
    ensures
        data_of(Json::Object(m)) == JsonData::Object(entries_view(m@)),
{
    if let JsonData::Object(a) = data_of(Json::Object(m)) {
        assert(a =~= entries_view(m@));
    }
}

pub proof fn lemma_array_view(v: Vec<Json>)
    ensures
        data_of(Json::Array(v)) == JsonData::Array(items_view(v@)),
{
    if let JsonData::Array(a) = data_of(Json::Array(v)) {
        assert(a =~= items_view(v@));
    }
}

/// Whether `a` sorts strictly before `b` as an object key.
pub fn key_precedes(a: &String, b: &String) -> (res: bool)
    ensures
        res == key_lt(a@, b@),
{
    let ca = chars_of(a.as_str());
    let cb = chars_of(b.as_str());
    let mut i: usize = 0;
    while i < ca.len() && i < cb.len() && ca[i] == cb[i]
        invariant
            ca@ == a@,
            cb@ == b@,
            i <= ca.len(),
            i <= cb.len(),
            ca@.subrange(0, i as int) == cb@.subrange(0, i as int),
        decreases ca.len() - i,
    {
        assert(ca@.subrange(0, i + 1) =~= ca@.subrange(0, i as int).push(ca@[i as int]));
        assert(cb@.subrange(0, i + 1) =~= cb@.subrange(0, i as int).push(cb@[i as int]));
        i = i + 1;
    }
    let res = if i < ca.len() && i < cb.len() {
        let x = ca[i];
        let y = cb[i];
        x < y
    } else {
        i == ca.len() && i < cb.len()
    };
    proof {
        let (x, y) = (a@, b@);
        if res {
            assert(x.subrange(0, i as int) == y.subrange(0, i as int));
        } else {
            assert forall|j: int|
                0 <= j <= x.len() && j <= y.len() && #[trigger] x.subrange(0, j) == #[trigger] y.subrange(0, j)
                implies !((j == x.len() && j < y.len()) || (j < x.len() && j < y.len() && (x[j] as int) < (y[j] as int))) by {
                if j < i {
                    assert(x.subrange(0, i as int)[j] == y.subrange(0, i as int)[j]);
                } else if j > i {
                    assert(x.subrange(0, j)[i as int] == y.subrange(0, j)[i as int]);
                }
            }
        }
    }
    res
}

/// The first position of key `k` among the entries, if any.
pub fn find_key(m: &Vec<(String, Json)>, k: &String) -> (res: Option<usize>)
    ensures
        match res {
            Some(i) => key_at(entries_view(m@), k@, i as int),
            None => !has_key(entries_view(m@), k@),
        },
{
    let ghost e = entries_view(m@);
    let mut i: usize = 0;
    while i < m.len()
        invariant
            e == entries_view(m@),
            i <= m.len(),
            forall|j: int| 0 <= j < i ==> #[trigger] e[j].0 != k@,
        decreases m.len() - i,
    {
        if m[i].0 == *k {
            return Some(i);
        }
        i = i + 1;
    }
    proof {
        assert forall|j: int| !key_at(e, k@, j) by {
            if 0 <= j < e.len() {
                assert(e[j].0 != k@);
            }
        }
    }
    None
}

/// Where a new key `k` goes among the entries.
pub fn find_insert_pos(m: &Vec<(String, Json)>, k: &String) -> (res: usize)
    ensures
        res as int == insert_pos(entries_view(m@), k@),
        res <= m.len(),
{
    let ghost e = entries_view(m@);
    let mut i: usize = 0;
    while i < m.len()
        invariant
            e == entries_view(m@),
            i <= m.len(),
            forall|l: int| 0 <= l < i ==> !key_lt(k@, #[trigger] e[l].0),
        decreases m.len() - i,
    {
        if key_precedes(k, &m[i].0) {
            assert(first_after(e, k@, i as int));
            proof {
                assert forall|j: int| first_after(e, k@, j) implies j == i by {
                    if j < i {
                        assert(!key_lt(k@, e[j].0));
                    } else if j > i {
                        assert(!key_lt(k@, e[i as int].0));
                    }
                }
            }
            return i;
        }
        i = i + 1;
    }
    proof {
        assert forall|j: int| !first_after(e, k@, j) by {
            if 0 <= j < e.len() {
                assert(!key_lt(k@, e[j].0));
            }
        }
    }
    i
}


/// The first position of a key is unique.
pub proof fn lemma_key_at_unique(e: Seq<(Seq<char>, JsonData)>, k: Seq<char>, i: int, j: int)
    requires
        key_at(e, k, i),
        key_at(e, k, j),
    ensures
        i == j,
{
    if i < j {
        assert(e[i].0 != k);
    } else if j < i {
        assert(e[j].0 != k);
    }
}

/// The member stored at the first position of its key is what `get` reads.
pub proof fn lemma_get_at(e: Seq<(Seq<char>, JsonData)>, k: Seq<char>, i: int)
    requires
        key_at(e, k, i),
    ensures
        JsonData::Object(e).field(k) == Some(e[i].1),
        JsonData::Object(e).get(k) == e[i].1,
{
    lemma_key_at_unique(e, k, i, key_index(e, k));
}

/// Reading a member after assigning it gives the assigned value.
pub proof fn lemma_get_set_same(d: JsonData, k: Seq<char>, v: JsonData)
    requires
        d.accepts_member(),
    ensures
        d.set(k, v).get(k) == v,
        d.set(k, v).field(k) == Some(v),
{
    match d {
        JsonData::Null => {
            lemma_get_at(seq![(k, v)], k, 0);
        },
        JsonData::Object(e) => {
            if has_key(e, k) {
                let i = key_index(e, k);
                let e2 = e.update(i, (k, v));
                assert(key_at(e2, k, i));
                lemma_get_at(e2, k, i);
            } else {
                let p = insert_pos(e, k);
                if exists|j: int| first_after(e, k, j) {
                    assert(0 <= p <= e.len());
                }
                let e2 = e.insert(p, (k, v));
                assert forall|j: int| 0 <= j < p implies #[trigger] e2[j].0 != k by {
                    assert(e2[j] == e[j]);
                    if e[j].0 == k {
                        assert(key_at(e, k, j) || exists|l: int| key_at(e, k, l)) by {
                            lemma_first_key(e, k, j);
                        }
                    }
                }
                assert(key_at(e2, k, p));
                lemma_get_at(e2, k, p);
            }
        },
        _ => {},
    }
}

/// Some position holds key `k`, so a first one does.
pub proof fn lemma_first_key(e: Seq<(Seq<char>, JsonData)>, k: Seq<char>, i: int)
    requires
        0 <= i < e.len(),
        e[i].0 == k,
    ensures
        has_key(e, k),
    decreases i,
{
    if forall|j: int| 0 <= j < i ==> #[trigger] e[j].0 != k {
        assert(key_at(e, k, i));
    } else {
        let j = choose|j: int| 0 <= j < i && #[trigger] e[j].0 == k;
        lemma_first_key(e, k, j);
    }
}

/// Assigning member `k` leaves every other member as it was.
pub proof fn lemma_get_set_other(d: JsonData, k: Seq<char>, k2: Seq<char>, v: JsonData)
    requires
        d.accepts_member(),
        k != k2,
    ensures
        d.set(k, v).get(k2) == d.get(k2),
        d.set(k, v).field(k2) == d.field(k2),
{
    match d {
        JsonData::Null => {
            assert(!key_at(seq![(k, v)], k2, 0));
            assert(!has_key(seq![(k, v)], k2));
        },
        JsonData::Object(e) => {
            let e2 = entries_set(e, k, v);
            if has_key(e, k) {
                let i = key_index(e, k);
                assert(e2 == e.update(i, (k, v)));
                if has_key(e, k2) {
                    let j = key_index(e, k2);
                    assert(key_at(e2, k2, j));
                    lemma_get_at(e2, k2, j);
                    lemma_get_at(e, k2, j);
                } else {
                    assert forall|j: int| !key_at(e2, k2, j) by {
                        if key_at(e2, k2, j) {
                            assert forall|l: int| 0 <= l < j implies #[trigger] e[l].0 != k2 by {
                                if l != i {
                                    assert(e2[l] == e[l]);
                                }
                            }
                            assert(key_at(e, k2, j));
                        }
                    }
                }
            } else {
                let p = insert_pos(e, k);
                if exists|j: int| first_after(e, k, j) {
                    assert(0 <= p <= e.len());
                }
                assert(e2 == e.insert(p, (k, v)));
                if has_key(e, k2) {
                    let j = key_index(e, k2);
                    let j2 = if j < p { j } else { j + 1 };
                    assert forall|l: int| 0 <= l < j2 implies #[trigger] e2[l].0 != k2 by {
                        if l < p {
                            assert(e2[l] == e[l]);
                        } else if l > p {
                            assert(e2[l] == e[l - 1]);
                        }
                    }
                    assert(key_at(e2, k2, j2));
                    lemma_get_at(e2, k2, j2);
                    lemma_get_at(e, k2, j);
                } else {
                    assert forall|j: int| !key_at(e2, k2, j) by {
                        if key_at(e2, k2, j) {
                            if j < p {
                                assert(e2[j] == e[j]);
                                lemma_first_key(e, k2, j);
                            } else if j > p {
                                assert(e2[j] == e[j - 1]);
                                lemma_first_key(e, k2, j - 1);
                            }
                        }
                    }
                }
            }
        },
        _ => {},
    }
}


proof fn lemma_key_lt_trans(a: Seq<char>, b: Seq<char>, c: Seq<char>)
    requires
        key_lt(a, b),
        key_lt(b, c),
    ensures
        key_lt(a, c),
{
    let i = choose|i: int|
        #![trigger a.subrange(0, i), b.subrange(0, i)]
        0 <= i <= a.len() && i <= b.len() && a.subrange(0, i) == b.subrange(0, i) && ((i == a.len() && i
            < b.len()) || (i < a.len() && i < b.len() && (a[i] as int) < (b[i] as int)));
    let j = choose|j: int|
        #![trigger b.subrange(0, j), c.subrange(0, j)]
        0 <= j <= b.len() && j <= c.len() && b.subrange(0, j) == c.subrange(0, j) && ((j == b.len() && j
            < c.len()) || (j < b.len() && j < c.len() && (b[j] as int) < (c[j] as int)));
    if i < j {
        assert(b.subrange(0, j)[i] == c.subrange(0, j)[i]);
        assert(a.subrange(0, i) =~= c.subrange(0, i)) by {
            assert forall|k: int| 0 <= k < i implies a[k] == c[k] by {
                assert(a.subrange(0, i)[k] == b.subrange(0, i)[k]);
                assert(b.subrange(0, j)[k] == c.subrange(0, j)[k]);
            }
        }
    } else if j < i {
        assert(a.subrange(0, i)[j] == b.subrange(0, i)[j]);
        assert(a.subrange(0, j) =~= c.subrange(0, j)) by {
            assert forall|k: int| 0 <= k < j implies a[k] == c[k] by {
                assert(a.subrange(0, i)[k] == b.subrange(0, i)[k]);
                assert(b.subrange(0, j)[k] == c.subrange(0, j)[k]);
            }
        }
    } else {
        assert(a.subrange(0, i) =~= c.subrange(0, i)) by {
            assert forall|k: int| 0 <= k < i implies a[k] == c[k] by {
                assert(a.subrange(0, i)[k] == b.subrange(0, i)[k]);
                assert(b.subrange(0, j)[k] == c.subrange(0, j)[k]);
            }
        }
    }
}

proof fn lemma_key_lt_total_from(a: Seq<char>, b: Seq<char>, n: int)
    requires
        0 <= n <= a.len(),
        n <= b.len(),
        a.subrange(0, n) == b.subrange(0, n),
        a != b,
    ensures
        key_lt(a, b) || key_lt(b, a),
    decreases a.len() - n,
{
    if n == a.len() && n == b.len() {
        assert(a =~= a.subrange(0, n));
        assert(b =~= b.subrange(0, n));
    } else if n == a.len() {
        assert(key_lt(a, b));
    } else if n == b.len() {
        assert(b.subrange(0, n) == a.subrange(0, n));
        assert(key_lt(b, a));
    } else if a[n] != b[n] {
        assert(b.subrange(0, n) == a.subrange(0, n));
        if (a[n] as int) < (b[n] as int) {
            assert(key_lt(a, b));
        } else {
            assert((b[n] as int) < (a[n] as int));
            assert(key_lt(b, a));
        }
    } else {
        assert(a.subrange(0, n + 1) =~= a.subrange(0, n).push(a[n]));
        assert(b.subrange(0, n + 1) =~= b.subrange(0, n).push(b[n]));
        lemma_key_lt_total_from(a, b, n + 1);
    }
}

/// Distinct keys are ordered one way or the other.
proof fn lemma_key_lt_total(a: Seq<char>, b: Seq<char>)
    requires
        a != b,
    ensures
        key_lt(a, b) || key_lt(b, a),
{
    assert(a.subrange(0, 0) =~= b.subrange(0, 0));
    lemma_key_lt_total_from(a, b, 0);
}

/// Some key sorts after `k`, so a first one does.
proof fn lemma_first_after_exists(e: Seq<(Seq<char>, JsonData)>, k: Seq<char>, j: int)
    requires
        0 <= j < e.len(),
        key_lt(k, e[j].0),
    ensures
        exists|l: int| first_after(e, k, l),
    decreases j,
{
    if forall|l: int| 0 <= l < j ==> !key_lt(k, #[trigger] e[l].0) {
        assert(first_after(e, k, j));
    } else {
        let l = choose|l: int| 0 <= l < j && key_lt(k, #[trigger] e[l].0);
        lemma_first_after_exists(e, k, l);
    }
}

/// The keys of the entries are in strictly increasing order.
pub open spec fn keys_sorted(e: Seq<(Seq<char>, JsonData)>) -> bool {
    forall|i: int, j: int| 0 <= i < j < e.len() ==> key_lt(#[trigger] e[i].0, #[trigger] e[j].0)
}

/// Assigning a member keeps an object's keys in increasing order, as in
/// the ordered map that `serde_json` keeps objects in.
pub proof fn law_set_keeps_keys_sorted(e: Seq<(Seq<char>, JsonData)>, k: Seq<char>, v: JsonData)
    requires
        keys_sorted(e),
    ensures
        keys_sorted(entries_set(e, k, v)),
{
    let e2 = entries_set(e, k, v);
    if has_key(e, k) {
        let i = key_index(e, k);
        assert forall|a: int, b: int| 0 <= a < b < e2.len() implies key_lt(#[trigger] e2[a].0, #[trigger] e2[b].0) by {
            assert(e2[a].0 == e[a].0);
            assert(e2[b].0 == e[b].0);
        }
    } else {
        let p = insert_pos(e, k);
        let found = exists|j: int| first_after(e, k, j);
        if found {
            assert(0 <= p < e.len() && first_after(e, k, p));
        }
        assert forall|l: int| 0 <= l < p implies key_lt(#[trigger] e[l].0, k) by {
            if found {
                assert(!key_lt(k, e[l].0));
            } else {
                if key_lt(k, e[l].0) {
                    lemma_first_after_exists(e, k, l);
                }
            }
            if e[l].0 == k {
                lemma_first_key(e, k, l);
            }
            lemma_key_lt_total(e[l].0, k);
        }
        assert forall|l: int| p <= l < e.len() implies key_lt(k, #[trigger] e[l].0) by {
            if l > p {
                assert(key_lt(e[p].0, e[l].0));
                lemma_key_lt_trans(k, e[p].0, e[l].0);
            }
        }
        assert forall|a: int, b: int| 0 <= a < b < e2.len() implies key_lt(#[trigger] e2[a].0, #[trigger] e2[b].0) by {
            if b < p {
                assert(e2[a] == e[a] && e2[b] == e[b]);
            } else if b == p {
                assert(e2[a] == e[a]);
            } else if a < p {
                assert(e2[a] == e[a] && e2[b] == e[b - 1]);
                assert(key_lt(e[a].0, k));
                lemma_key_lt_trans(e[a].0, k, e[b - 1].0);
            } else if a == p {
                assert(e2[b] == e[b - 1]);
            } else {
                assert(e2[a] == e[a - 1] && e2[b] == e[b - 1]);
            }
        }
    }
}

impl View for Json {
    type V = JsonData;

    open spec fn view(&self) -> JsonData {
        data_of(*self)
    }
}


impl FloatText {
    /// Accepts `text` as the printed form of a finite float when it starts
    /// with a digit or a minus sign.
    pub fn new(text: String) -> (res: Option<FloatText>)
        ensures
            res is Some <==> float_text_ok(text@),
            res matches Some(f) ==> f@ == text@,
    {
        let n = text.as_str().unicode_len();
        if n == 0 {
            return None;
        }
        let c = text.as_str().get_char(0);
        if c == '-' || ('0' <= c && c <= '9') {
            Some(FloatText { text })
        } else {
            None
        }
    }

    /// The printed text of the number.
    pub fn as_str(&self) -> (res: &str)
        ensures
            res@ == self@,
            float_text_ok(res@),
    {
        proof {
            use_type_invariant(self);
        }
        self.text.as_str()
    }

    /// A copy of the number.
    pub fn deep_clone(&self) -> (res: FloatText)
        ensures
            res@ == self@,
    {
        proof {
            use_type_invariant(self);
        }
        FloatText { text: self.text.clone() }
    }
}

impl JsonNumber {
    /// A copy of the number.
    pub fn deep_clone(&self) -> (res: JsonNumber)
        ensures
            data_of(Json::Number(res)) == data_of(Json::Number(*self)),
    {
        match self {
            JsonNumber::PosInt(u) => JsonNumber::PosInt(*u),
            JsonNumber::NegInt(i) => JsonNumber::NegInt(*i),
            JsonNumber::Float(f) => JsonNumber::Float(f.deep_clone()),
        }
    }
}

impl Json {
    /// A copy of the document with the same value.
    #[verifier::loop_isolation(false)]
    pub fn deep_clone(&self) -> (res: Json)
        ensures
            res@ == self@,
        decreases self,
    {
        match self {
            Json::Null => Json::Null,
            Json::Bool(b) => Json::Bool(*b),
            Json::Number(n) => Json::Number(n.deep_clone()),
            Json::Str(s) => Json::Str(s.clone()),
            Json::Array(v) => {
                let mut out: Vec<Json> = Vec::new();
                let mut i: usize = 0;
                while i < v.len()
                    invariant
                        *self == Json::Array(*v),
                        i <= v.len(),
                        out.len() == i,
                        forall|j: int| 0 <= j < i ==> #[trigger] out@[j]@ == v@[j]@,
                    decreases v.len() - i,
                {
                    let e = v[i].deep_clone();
                    out.push(e);
                    i = i + 1;
                }
                let res = Json::Array(out);
                proof {
                    if let (JsonData::Array(a), JsonData::Array(b)) = (res@, self@) {
                        assert(a.len() == b.len());
                        assert forall|j: int| 0 <= j < a.len() implies a[j] == b[j] by {
                            assert(out@[j]@ == v@[j]@);
                        }
                        assert(a =~= b);
                    }
                }
                res
            },
            Json::Object(m) => {
                let mut out: Vec<(String, Json)> = Vec::new();
                let mut i: usize = 0;
                while i < m.len()
                    invariant
                        *self == Json::Object(*m),
                        i <= m.len(),
                        out.len() == i,
                        forall|j: int| 0 <= j < i ==> #[trigger] out@[j].0@ == m@[j].0@,
                        forall|j: int| 0 <= j < i ==> #[trigger] out@[j].1@ == m@[j].1@,
                    decreases m.len() - i,
                {
                    let e = m[i].1.deep_clone();
                    out.push((m[i].0.clone(), e));
                    i = i + 1;
                }
                let res = Json::Object(out);
                proof {
                    if let (JsonData::Object(a), JsonData::Object(b)) = (res@, self@) {
                        assert(a.len() == b.len());
                        assert forall|j: int| 0 <= j < a.len() implies a[j] == b[j] by {
                            assert(out@[j].0@ == m@[j].0@ && out@[j].1@ == m@[j].1@);
                        }
                        assert(a =~= b);
                    }
                }
                res
            },
        }
    }
}


/// Stores `v` under key `k` in the entries, keeping key order for a new key.
fn entries_put(m: &mut Vec<(String, Json)>, k: String, v: Json)
    ensures
        entries_view(final(m)@) == entries_set(entries_view(old(m)@), k@, v@),
{
    let ghost e = entries_view(m@);
    let ghost kv = k@;
    let ghost vv = v@;
    match find_key(m, &k) {
        Some(i) => {
            m.set(i, (k, v));
            assert(entries_view(m@) =~= e.update(i as int, (kv, vv)));
        },
        None => {
            let p = find_insert_pos(m, &k);
            m.insert(p, (k, v));
            assert(entries_view(m@) =~= e.insert(p as int, (kv, vv)));
        },
    }
}

impl Json {
    /// The member `key` of an object (`Value::get`).
    pub fn field(&self, key: &str) -> (res: Option<&Json>)
        ensures
            match res {
                Some(r) => self@.field(key@) == Some(r@),
                None => self@.field(key@) is None,
            },
    {
        match self {
            Json::Object(m) => {
                proof {
                    lemma_object_view(*m);
                }
                let k = key.to_owned();
                match find_key(m, &k) {
                    Some(i) => Some(&m[i].1),
                    None => None,
                }
            },
            _ => None,
        }
    }

    /// Whether the document is null.
    pub fn is_null(&self) -> (res: bool)
        ensures
            res == (self@ is Null),
    {
        match self {
            Json::Null => true,
            _ => false,
        }
    }

    /// Whether the document is an object.
    pub fn is_object(&self) -> (res: bool)
        ensures
            res == (self@ is Object),
    {
        match self {
            Json::Object(_) => true,
            _ => false,
        }
    }

    /// Whether the document is an array.
    pub fn is_array(&self) -> (res: bool)
        ensures
            res == (self@ is Array),
    {
        match self {
            Json::Array(_) => true,
            _ => false,
        }
    }

    /// The string inside a string document.
    pub fn as_str(&self) -> (res: Option<&String>)
        ensures
            match res {
                Some(s) => self@.as_str() == Some(s@),
                None => self@.as_str() is None,
            },
    {
        match self {
            Json::Str(s) => Some(s),
            _ => None,
        }
    }

    /// The unsigned integer inside a number document (`Value::as_u64`).
    pub fn as_u64(&self) -> (res: Option<u64>)
        ensures
            res == self@.as_u64(),
    {
        match self {
            Json::Number(JsonNumber::PosInt(u)) => Some(*u),
            _ => None,
        }
    }

    /// The items of an array document.
    pub fn as_array(&self) -> (res: Option<&Vec<Json>>)
        ensures
            match res {
                Some(v) => self@ == JsonData::Array(items_view(v@)),
                None => self@.as_array() is None,
            },
    {
        match self {
            Json::Array(v) => {
                proof {
                    lemma_array_view(*v);
                }
                Some(v)
            },
            _ => None,
        }
    }

    /// Assigns member `key` (`value[key] = v`): null turns into an object first.
    pub fn set(&mut self, key: &str, value: Json)
        requires
            old(self)@.accepts_member(),
        ensures
            final(self)@ == old(self)@.set(key@, value@),
    {
        let mut whole = Json::Null;
        std::mem::swap(&mut whole, self);
        let k = key.to_owned();
        match whole {
            Json::Object(mut m) => {
                proof {
                    lemma_object_view(m);
                }
                entries_put(&mut m, k, value);
                proof {
                    lemma_object_view(m);
                }
                *self = Json::Object(m);
            },
            _ => {
                let ghost kv = k@;
                let ghost vv = value@;
                let mut m: Vec<(String, Json)> = Vec::new();
                m.push((k, value));
                proof {
                    lemma_object_view(m);
                    assert(entries_view(m@) =~= seq![(kv, vv)]);
                }
                *self = Json::Object(m);
            },
        }
    }

    /// Assigns member `key` of member `outer` (`value[outer][key] = v`).
    pub fn set_in(&mut self, outer: &str, key: &str, value: Json)
        requires
            old(self)@.accepts_member(),
            old(self)@.get(outer@).accepts_member(),
        ensures
            final(self)@ == old(self)@.set(outer@, old(self)@.get(outer@).set(key@, value@)),
    {
        let mut whole = Json::Null;
        std::mem::swap(&mut whole, self);
        let ok = outer.to_owned();
        match whole {
            Json::Object(mut m) => {
                proof {
                    lemma_object_view(m);
                }
                let ghost e = entries_view(m@);
                match find_key(&m, &ok) {
                    Some(i) => {
                        let (name, mut child) = m.remove(i);
                        child.set(key, value);
                        let ghost cv = child@;
                        m.insert(i, (name, child));
                        proof {
                            assert(entries_view(m@) =~= e.update(i as int, (ok@, cv)));
                            lemma_object_view(m);
                        }
                    },
                    None => {
                        let mut child = Json::Null;
                        child.set(key, value);
                        entries_put(&mut m, ok, child);
                        proof {
                            lemma_object_view(m);
                        }
                    },
                }
                *self = Json::Object(m);
            },
            _ => {
                let mut child = Json::Null;
                child.set(key, value);
                self.set(outer, child);
            },
        }
    }

    /// Appends `item` to the array held in member `key` of member `outer`
    /// (`value[outer][key].as_array_mut().unwrap().push(item)`).
    pub fn push_in(&mut self, outer: &str, key: &str, item: Json)
        requires
            old(self)@.get(outer@).get(key@) is Array,
        ensures
            final(self)@ == old(self)@.set(
                outer@,
                old(self)@.get(outer@).set(key@, JsonData::Array(old(self)@.get(outer@).get(key@)->Array_0.push(item@))),
            ),
    {
        let mut arr = Json::Null;
        if let Some(outer_v) = self.field(outer) {
            if let Some(inner) = outer_v.field(key) {
                arr = inner.deep_clone();
            }
        }
        match arr {
            Json::Array(mut v) => {
                proof {
                    lemma_array_view(v);
                }
                let ghost a = items_view(v@);
                let ghost iv = item@;
                v.push(item);
                proof {
                    assert(items_view(v@) =~= a.push(iv));
                    lemma_array_view(v);
                }
                self.set_in(outer, key, Json::Array(v));
            },
            _ => {},
        }
    }
}

} // verus!
