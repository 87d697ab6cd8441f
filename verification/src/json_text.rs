//! Printing JSON documents: the compact form (`to_string`, `Display`) and
//! the pretty form with two-space indentation (`to_string_pretty`).
use vstd::prelude::*;
use crate::json::{Json, JsonData, JsonNumber, lemma_array_view, lemma_object_view, items_view, entries_view};
use crate::text::{decimal, signed_decimal, digit_char, push_char, push_decimal, push_signed_decimal};
use vstd::string::*;

verus! {

/// A lower-case hexadecimal digit.
pub open spec fn hex_char(d: int) -> char {
    if d < 10 { (48 + d) as char } else { (87 + d) as char }
}

/// How one character appears inside a quoted JSON string.
pub open spec fn escape_char(c: char) -> Seq<char> {
    if c == '"' {
        seq!['\\', '"']
    } else if c == '\\' {
        seq!['\\', '\\']
    } else if c == '\n' {
        seq!['\\', 'n']
    } else if c == '\r' {
        seq!['\\', 'r']
    } else if c == '\t' {
        seq!['\\', 't']
    } else if c == '\x08' {
        seq!['\\', 'b']
    } else if c == '\x0c' {
        seq!['\\', 'f']
    } else if (c as u32) < 0x20 {
        seq!['\\', 'u', '0', '0', hex_char(((c as u32) / 16) as int), hex_char(((c as u32) % 16) as int)]
    } else {
        seq![c]
    }
}

/// The escaped body of a JSON string.
pub open spec fn escape(s: Seq<char>) -> Seq<char>
    decreases s.len(),
{
    if s.len() == 0 {
        Seq::empty()
    } else {
        escape(s.drop_last()) + escape_char(s.last())
    }
}

/// A JSON string literal: the escaped text between double quotes.
pub open spec fn quoted(s: Seq<char>) -> Seq<char> {
    seq!['"'] + escape(s) + seq!['"']
}

/// Prints a string as a JSON string literal (`serde_json::to_string` on a `str`).
#[verifier::external_body]
pub(crate) fn quote_json(s: &str) -> (res: String)
    ensures
        res@ == quoted(s@),
{
    serde_json::to_string(s).unwrap()
}

pub open spec fn null_text() -> Seq<char> {
    seq!['n', 'u', 'l', 'l']
}

pub open spec fn bool_text(b: bool) -> Seq<char> {
    if b { seq!['t', 'r', 'u', 'e'] } else { seq!['f', 'a', 'l', 's', 'e'] }
}

/// The compact text of a document, as `serde_json::to_string` prints it.
pub open spec fn compact(d: JsonData) -> Seq<char>
    decreases d,
{
    match d {
        JsonData::Null => null_text(),
        JsonData::Bool(b) => bool_text(b),
        JsonData::PosInt(u) => decimal(u as nat),
        JsonData::NegInt(i) => signed_decimal(i as int),
        JsonData::Float(t) => t,
        JsonData::Str(s) => quoted(s),
        JsonData::Array(a) => seq!['['] + compact_items(a) + seq![']'],
        JsonData::Object(e) => seq!['{'] + compact_entries(e) + seq!['}'],
    }
}

/// The items of an array, separated by commas.
pub open spec fn compact_items(a: Seq<JsonData>) -> Seq<char>
    decreases a,
{
    if a.len() == 0 {
        Seq::empty()
    } else if a.len() == 1 {
        compact(a[0])
    } else {
        compact_items(a.subrange(0, a.len() - 1)) + seq![','] + compact(a[a.len() - 1])
    }
}

/// The members of an object as `"key":value`, separated by commas.
pub open spec fn compact_entries(e: Seq<(Seq<char>, JsonData)>) -> Seq<char>
    decreases e,
{
    if e.len() == 0 {
        Seq::empty()
    } else if e.len() == 1 {
        quoted(e[0].0) + seq![':'] + compact(e[0].1)
    } else {
        compact_entries(e.subrange(0, e.len() - 1)) + seq![','] + quoted(e[e.len() - 1].0) + seq![':']
            + compact(e[e.len() - 1].1)
    }
}


proof fn lemma_compact_items_step(a: Seq<JsonData>, i: int)
    requires
        0 <= i < a.len(),
    ensures
        compact_items(a.subrange(0, i + 1)) == compact_items(a.subrange(0, i)) + (if i > 0 {
            seq![',']
        } else {
            Seq::empty()
        }) + compact(a[i]),
{
    let s = a.subrange(0, i + 1);
    assert(s.subrange(0, s.len() - 1) =~= a.subrange(0, i));
    if i == 0 {
        assert(compact_items(a.subrange(0, 0)) == Seq::<char>::empty());
        assert(compact_items(s) =~= Seq::<char>::empty() + Seq::<char>::empty() + compact(a[i]));
    }
}

proof fn lemma_compact_entries_step(e: Seq<(Seq<char>, JsonData)>, i: int)
    requires
        0 <= i < e.len(),
    ensures
        compact_entries(e.subrange(0, i + 1)) == compact_entries(e.subrange(0, i)) + (if i > 0 {
            seq![',']
        } else {
            Seq::empty()
        }) + quoted(e[i].0) + seq![':'] + compact(e[i].1),
{
    let s = e.subrange(0, i + 1);
    assert(s.subrange(0, s.len() - 1) =~= e.subrange(0, i));
    if i == 0 {
        assert(compact_entries(e.subrange(0, 0)) == Seq::<char>::empty());
        assert(compact_entries(s) =~= Seq::<char>::empty() + Seq::<char>::empty() + quoted(e[i].0) + seq![':']
            + compact(e[i].1));
    }
}

fn push_str(out: &mut String, s: &str)
    ensures
        final(out)@ == old(out)@ + s@,
{
    out.append(s);
}

/// Appends the compact text of `j`.
#[verifier::loop_isolation(false)]
pub fn write_compact(out: &mut String, j: &Json)
    ensures
        final(out)@ == old(out)@ + compact(j@),
    decreases j,
{
    let ghost start = out@;
    match j {
        Json::Null => {
            push_str(out, "null");
            proof { reveal_strlit("null"); }
            assert(out@ =~= start + compact(j@));
        },
        Json::Bool(b) => {
            if *b {
                push_str(out, "true");
                proof { reveal_strlit("true"); }
            } else {
                push_str(out, "false");
                proof { reveal_strlit("false"); }
            }
            assert(out@ =~= start + compact(j@));
        },
        Json::Number(JsonNumber::PosInt(u)) => {
            push_decimal(out, *u);
        },
        Json::Number(JsonNumber::NegInt(i)) => {
            push_signed_decimal(out, *i);
        },
        Json::Number(JsonNumber::Float(f)) => {
            push_str(out, f.as_str());
        },
        Json::Str(s) => {
            let q = quote_json(s.as_str());
            push_str(out, q.as_str());
        },
        Json::Array(v) => {
            proof {
                lemma_array_view(*v);
            }
            let ghost a = items_view(v@);
            push_char(out, '[');
            let ghost mid = out@;
            let mut i: usize = 0;
            while i < v.len()
                invariant
                    i <= v.len(),
                    out@ == mid + compact_items(a.subrange(0, i as int)),
                decreases v.len() - i,
            {
                proof {
                    lemma_compact_items_step(a, i as int);
                }
                if i > 0 {
                    push_char(out, ',');
                }
                write_compact(out, &v[i]);
                assert(out@ =~= mid + compact_items(a.subrange(0, i + 1)));
                i = i + 1;
            }
            push_char(out, ']');
            assert(a.subrange(0, v.len() as int) =~= a);
            assert(out@ =~= start + compact(j@));
        },
        Json::Object(m) => {
            proof {
                lemma_object_view(*m);
            }
            let ghost e = entries_view(m@);
            push_char(out, '{');
            let ghost mid = out@;
            let mut i: usize = 0;
            while i < m.len()
                invariant
                    i <= m.len(),
                    out@ == mid + compact_entries(e.subrange(0, i as int)),
                decreases m.len() - i,
            {
                proof {
                    lemma_compact_entries_step(e, i as int);
                }
                if i > 0 {
                    push_char(out, ',');
                }
                let q = quote_json(m[i].0.as_str());
                push_str(out, q.as_str());
                push_char(out, ':');
                write_compact(out, &m[i].1);
                assert(out@ =~= mid + compact_entries(e.subrange(0, i + 1)));
                i = i + 1;
            }
            push_char(out, '}');
            assert(e.subrange(0, m.len() as int) =~= e);
            assert(out@ =~= start + compact(j@));
        },
    }
}

/// The compact text of `j` (`serde_json::to_string`, or `Display`).
pub fn to_compact_string(j: &Json) -> (res: String)
    ensures
        res@ == compact(j@),
{
    let mut out = String::new();
    write_compact(&mut out, j);
    assert(out@ =~= compact(j@));
    out
}


/// `l` levels of two-space indentation.
pub open spec fn indent(l: nat) -> Seq<char>
    decreases l,
{
    if l == 0 {
        Seq::empty()
    } else {
        indent((l - 1) as nat) + seq![' ', ' ']
    }
}

/// What comes before the `n`-th item or member (counting from 1) of a
/// non-empty array or object in the pretty form.
pub open spec fn pretty_sep(n: int) -> Seq<char> {
    if n == 1 { seq!['\n'] } else { seq![',', '\n'] }
}

/// The pretty text of a document nested `l` levels deep, as
/// `serde_json::to_string_pretty` prints it.
pub open spec fn pretty(d: JsonData, l: nat) -> Seq<char>
    decreases d,
{
    match d {
        JsonData::Array(a) => if a.len() == 0 {
            seq!['[', ']']
        } else {
            seq!['['] + pretty_items(a, l + 1) + seq!['\n'] + indent(l) + seq![']']
        },
        JsonData::Object(e) => if e.len() == 0 {
            seq!['{', '}']
        } else {
            seq!['{'] + pretty_entries(e, l + 1) + seq!['\n'] + indent(l) + seq!['}']
        },
        _ => compact(d),
    }
}

pub open spec fn pretty_items(a: Seq<JsonData>, l: nat) -> Seq<char>
    decreases a,
{
    if a.len() == 0 {
        Seq::empty()
    } else {
        pretty_items(a.subrange(0, a.len() - 1), l) + pretty_sep(a.len() as int) + indent(l) + pretty(
            a[a.len() - 1],
            l,
        )
    }
}

pub open spec fn pretty_entries(e: Seq<(Seq<char>, JsonData)>, l: nat) -> Seq<char>
    decreases e,
{
    if e.len() == 0 {
        Seq::empty()
    } else {
        pretty_entries(e.subrange(0, e.len() - 1), l) + pretty_sep(e.len() as int) + indent(l) + quoted(
            e[e.len() - 1].0,
        ) + seq![':', ' '] + pretty(e[e.len() - 1].1, l)
    }
}

/// Appends the pretty text of `j` nested `l` levels deep; `ind` is the
/// indentation of that level.
#[verifier::loop_isolation(false)]
#[verifier::rlimit(50)]
fn write_pretty(out: &mut String, j: &Json, ind: &String, Ghost(l): Ghost<nat>)
    requires
        ind@ == indent(l),
    ensures
        final(out)@ == old(out)@ + pretty(j@, l),
    decreases j,
{
    let ghost start = out@;
    match j {
        Json::Array(v) => {
            proof {
                lemma_array_view(*v);
            }
            let ghost a = items_view(v@);
            if v.len() == 0 {
                push_str(out, "[]");
                proof { reveal_strlit("[]"); }
                assert(out@ =~= start + pretty(j@, l));
                return;
            }
            let mut inner = ind.clone();
            push_str(&mut inner, "  ");
            proof {
                reveal_strlit("  ");
                assert(inner@ =~= indent(l + 1));
            }
            push_char(out, '[');
            let ghost mid = out@;
            let mut i: usize = 0;
            while i < v.len()
                invariant
                    i <= v.len(),
                    out@ == mid + pretty_items(a.subrange(0, i as int), l + 1),
                decreases v.len() - i,
            {
                let ghost sub = a.subrange(0, i + 1);
                assert(sub.subrange(0, sub.len() - 1) =~= a.subrange(0, i as int));
                if i > 0 {
                    push_char(out, ',');
                }
                push_char(out, '\n');
                push_str(out, inner.as_str());
                write_pretty(out, &v[i], &inner, Ghost(l + 1));
                assert(out@ =~= mid + pretty_items(sub, l + 1));
                i = i + 1;
            }
            push_char(out, '\n');
            push_str(out, ind.as_str());
            push_char(out, ']');
            assert(a.subrange(0, v.len() as int) =~= a);
            assert(out@ =~= start + pretty(j@, l));
        },
        Json::Object(m) => {
            proof {
                lemma_object_view(*m);
            }
            let ghost e = entries_view(m@);
            if m.len() == 0 {
                push_str(out, "{}");
                proof { reveal_strlit("{}"); }
                assert(out@ =~= start + pretty(j@, l));
                return;
            }
            let mut inner = ind.clone();
            push_str(&mut inner, "  ");
            proof {
                reveal_strlit("  ");
                assert(inner@ =~= indent(l + 1));
            }
            push_char(out, '{');
            let ghost mid = out@;
            let mut i: usize = 0;
            while i < m.len()
                invariant
                    i <= m.len(),
                    out@ == mid + pretty_entries(e.subrange(0, i as int), l + 1),
                decreases m.len() - i,
            {
                let ghost sub = e.subrange(0, i + 1);
                assert(sub.subrange(0, sub.len() - 1) =~= e.subrange(0, i as int));
                if i > 0 {
                    push_char(out, ',');
                }
                push_char(out, '\n');
                push_str(out, inner.as_str());
                let q = quote_json(m[i].0.as_str());
                push_str(out, q.as_str());
                push_char(out, ':');
                push_char(out, ' ');
                write_pretty(out, &m[i].1, &inner, Ghost(l + 1));
                assert(out@ =~= mid + pretty_entries(sub, l + 1));
                i = i + 1;
            }
            push_char(out, '\n');
            push_str(out, ind.as_str());
            push_char(out, '}');
            assert(e.subrange(0, m.len() as int) =~= e);
            assert(out@ =~= start + pretty(j@, l));
        },
        _ => {
            write_compact(out, j);
        },
    }
}

/// The pretty text of `j` (`serde_json::to_string_pretty`).
pub fn to_pretty_string(j: &Json) -> (res: String)
    ensures
        res@ == pretty(j@, 0),
{
    let mut out = String::new();
    let ind = String::new();
    write_pretty(&mut out, j, &ind, Ghost(0));
    assert(out@ =~= pretty(j@, 0));
    out
}


proof fn lemma_decimal_nonempty(n: nat)
    ensures
        decimal(n).len() >= 1,
        decimal(n).len() == 1 ==> decimal(n)[0] == digit_char(n as int),
    decreases n,
{
    if n >= 10 {
        lemma_decimal_nonempty(n / 10);
    }
}

/// The compact text of a document is never a lone double quote.
pub fn compact_not_lone_quote(j: &Json)
    ensures
        compact(j@) != seq!['"'],
{
    match j {
        Json::Number(JsonNumber::Float(f)) => {
            let t = f.as_str();
            assert(compact(j@) == t@);
        },
        Json::Number(JsonNumber::PosInt(u)) => {
            proof {
                lemma_decimal_nonempty(*u as nat);
                if decimal(*u as nat).len() == 1 {
                    assert(decimal(*u as nat)[0] != '"');
                }
            }
        },
        Json::Number(JsonNumber::NegInt(i)) => {
            proof {
                if *i >= 0 {
                    lemma_decimal_nonempty(*i as nat);
                    if decimal(*i as nat).len() == 1 {
                        assert(decimal(*i as nat)[0] != '"');
                    }
                } else {
                    lemma_decimal_nonempty((-*i) as nat);
                }
            }
        },
        Json::Str(_) => {},
        Json::Null => {
            assert(compact(j@).len() == 4);
        },
        Json::Bool(b) => {
            assert(compact(j@).len() >= 4);
        },
        Json::Array(_) => {
            assert(compact(j@)[0] == '[');
        },
        Json::Object(_) => {
            assert(compact(j@)[0] == '{');
        },
    }
}

/// Text that a JSON string literal holds as it is: no double quote, no
/// backslash and no control character.
pub open spec fn plain_text(s: Seq<char>) -> bool {
    forall|i: int| 0 <= i < s.len() ==> #[trigger] s[i] != '"' && s[i] != '\\' && (s[i] as u32) >= 0x20
}

/// Whether `s` is plain text in the sense of [`plain_text`].
pub fn json_plain(s: &str) -> (res: bool)
    ensures
        res == plain_text(s@),
{
    let v = crate::text::chars_of(s);
    let mut i: usize = 0;
    while i < v.len()
        invariant
            v@ == s@,
            i <= v.len(),
            forall|j: int| 0 <= j < i ==> #[trigger] s@[j] != '"' && s@[j] != '\\' && (s@[j] as u32) >= 0x20,
        decreases v.len() - i,
    {
        let c = v[i];
        if c == '"' || c == '\\' || (c as u32) < 0x20 {
            return false;
        }
        i = i + 1;
    }
    true
}

/// Plain text is written into a JSON string literal unchanged, so the
/// literal made by putting it between double quotes reads back as the text.
pub proof fn law_plain_text_unescaped(s: Seq<char>)
    requires
        plain_text(s),
    ensures
        escape(s) == s,
        quoted(s) == seq!['"'] + s + seq!['"'],
    decreases s.len(),
{
    if s.len() > 0 {
        let t = s.drop_last();
        assert(plain_text(t)) by {
            assert forall|i: int| 0 <= i < t.len() implies #[trigger] t[i] != '"' && t[i] != '\\' && (t[i] as u32)
                >= 0x20 by {
                assert(t[i] == s[i]);
            }
        }
        law_plain_text_unescaped(t);
        let c = s.last();
        assert(s[s.len() - 1] == c);
        assert(escape_char(c) == seq![c]);
        assert(escape(s) =~= s);
    }
}

} // verus!
