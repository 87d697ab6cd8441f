//! Character-level helpers on strings.
use vstd::prelude::*;
use vstd::string::*;

verus! {

/// Appends one character to a string (`String::push`).
#[verifier::external_body]
pub(crate) fn push_char(s: &mut String, c: char)
    ensures
        final(s)@ == old(s)@.push(c),
{
    s.push(c);
}

/// The characters of `s`, in order.
pub fn chars_of(s: &str) -> (res: Vec<char>)
    ensures
        res@ == s@,
{
    let mut res: Vec<char> = Vec::new();
    for c in it: s.chars()
        invariant
            res@ == it.seq().take(it.index() as int),
    {
        res.push(c);
    }
    res
}


/// The character of a decimal digit `d` (0 to 9).
pub open spec fn digit_char(d: int) -> char {
    (48 + d) as char
}

/// The decimal digits of `n`, without leading zeros.
pub open spec fn decimal(n: nat) -> Seq<char>
    decreases n,
{
    if n < 10 {
        seq![digit_char(n as int)]
    } else {
        decimal(n / 10).push(digit_char((n % 10) as int))
    }
}

/// The decimal form of a signed integer, with a minus sign when negative.
pub open spec fn signed_decimal(i: int) -> Seq<char> {
    if i < 0 {
        seq!['-'] + decimal((-i) as nat)
    } else {
        decimal(i as nat)
    }
}

fn digit(d: u64) -> (c: char)
    requires
        d < 10,
    ensures
        c == digit_char(d as int),
{
    let b: u8 = 48u8 + (d as u8);
    let c = b as char;
    assert(b == 48 + d);
    c
}

/// Appends the decimal digits of `n`.
pub fn push_decimal(out: &mut String, n: u64)
    ensures
        final(out)@ == old(out)@ + decimal(n as nat),
    decreases n,
{
    if n >= 10 {
        push_decimal(out, n / 10);
    }
    let c = digit(n % 10);
    push_char(out, c);
    assert(final(out)@ =~= old(out)@ + decimal(n as nat)) by {
        if n >= 10 {
            assert(decimal(n as nat) == decimal((n / 10) as nat).push(digit_char((n % 10) as int)));
        }
    }
}

/// Appends the decimal form of a signed integer.
pub fn push_signed_decimal(out: &mut String, i: i64)
    ensures
        final(out)@ == old(out)@ + signed_decimal(i as int),
{
    if i < 0 {
        push_char(out, '-');
        let m: u64 = if i == i64::MIN { 9223372036854775808u64 } else { (-i) as u64 };
        push_decimal(out, m);
        assert(final(out)@ =~= old(out)@ + signed_decimal(i as int));
    } else {
        push_decimal(out, i as u64);
    }
}

/// The decimal form of `n` as a new string.
pub fn decimal_string(n: u64) -> (res: String)
    ensures
        res@ == decimal(n as nat),
{
    let mut s = String::new();
    push_decimal(&mut s, n);
    assert(s@ =~= decimal(n as nat));
    s
}


/// Unicode white space (the `White_Space` property, as `char::is_whitespace`).
pub open spec fn is_white(c: char) -> bool {
    let u = c as u32;
    (9 <= u <= 13) || u == 32 || u == 0x85 || u == 0xA0 || u == 0x1680 || (0x2000 <= u <= 0x200A) || u
        == 0x2028 || u == 0x2029 || u == 0x202F || u == 0x205F || u == 0x3000
}

pub fn is_white_char(c: char) -> (res: bool)
    ensures
        res == is_white(c),
{
    let u = c as u32;
    (9 <= u && u <= 13) || u == 32 || u == 0x85 || u == 0xA0 || u == 0x1680 || (0x2000 <= u && u <= 0x200A)
        || u == 0x2028 || u == 0x2029 || u == 0x202F || u == 0x205F || u == 0x3000
}

/// `s` without leading white space.
pub open spec fn trim_start(s: Seq<char>) -> Seq<char>
    decreases s.len(),
{
    if s.len() > 0 && is_white(s[0]) {
        trim_start(s.drop_first())
    } else {
        s
    }
}

/// `s` without trailing white space.
pub open spec fn trim_end(s: Seq<char>) -> Seq<char>
    decreases s.len(),
{
    if s.len() > 0 && is_white(s.last()) {
        trim_end(s.drop_last())
    } else {
        s
    }
}

/// `s` without leading and trailing white space (`str::trim`).
pub open spec fn trim(s: Seq<char>) -> Seq<char> {
    trim_end(trim_start(s))
}

/// The string made of the characters of `v`.
pub fn string_of(v: &Vec<char>) -> (res: String)
    ensures
        res@ == v@,
{
    let mut res = String::new();
    let mut i: usize = 0;
    while i < v.len()
        invariant
            i <= v.len(),
            res@ == v@.subrange(0, i as int),
        decreases v.len() - i,
    {
        push_char(&mut res, v[i]);
        assert(res@ =~= v@.subrange(0, i + 1));
        i = i + 1;
    }
    assert(res@ =~= v@);
    res
}

/// `s` without leading and trailing white space.
pub fn trim_white(s: &str) -> (res: String)
    ensures
        res@ == trim(s@),
{
    let c = chars_of(s);
    let n = c.len();
    let mut i: usize = 0;
    assert(s@.subrange(0, n as int) =~= s@);
    while i < n && is_white_char(c[i])
        invariant
            c@ == s@,
            n == c.len(),
            i <= n,
            trim_start(s@) == trim_start(s@.subrange(i as int, n as int)),
        decreases n - i,
    {
        assert(s@.subrange(i as int, n as int).drop_first() =~= s@.subrange(i + 1, n as int));
        i = i + 1;
    }
    assert(trim_start(s@) == s@.subrange(i as int, n as int));
    let mut j: usize = n;
    while j > i && is_white_char(c[j - 1])
        invariant
            c@ == s@,
            n == c.len(),
            i <= j <= n,
            trim(s@) == trim_end(s@.subrange(i as int, j as int)),
        decreases j - i,
    {
        assert(s@.subrange(i as int, j as int).drop_last() =~= s@.subrange(i as int, j - 1));
        j = j - 1;
    }
    assert(trim(s@) == s@.subrange(i as int, j as int));
    let mut out: Vec<char> = Vec::new();
    let mut k: usize = i;
    while k < j
        invariant
            c@ == s@,
            i <= k <= j <= n,
            n == c.len(),
            out@ == s@.subrange(i as int, k as int),
        decreases j - k,
    {
        out.push(c[k]);
        assert(out@ =~= s@.subrange(i as int, k + 1));
        k = k + 1;
    }
    string_of(&out)
}

/// `t` occurs in `s` as a contiguous run of characters.
pub open spec fn contains_seq(s: Seq<char>, t: Seq<char>) -> bool {
    exists|i: int| 0 <= i && i + t.len() <= s.len() && #[trigger] s.subrange(i, i + t.len()) == t
}

/// Whether `t` occurs in `s` (`str::contains` with a string pattern).
pub fn contains_text(s: &str, t: &str) -> (res: bool)
    ensures
        res == contains_seq(s@, t@),
{
    let a = chars_of(s);
    let b = chars_of(t);
    if b.len() > a.len() {
        return false;
    }
    let mut i: usize = 0;
    while i <= a.len() - b.len()
        invariant
            a@ == s@,
            b@ == t@,
            b.len() <= a.len(),
            forall|p: int| 0 <= p < i ==> #[trigger] a@.subrange(p, p + b.len()) != b@,
        decreases a.len() - i,
    {
        let mut k: usize = 0;
        while k < b.len() && a[i + k] == b[k]
            invariant
                a@ == s@,
                b@ == t@,
                i + b.len() <= a.len(),
                k <= b.len(),
                forall|q: int| 0 <= q < k ==> a@[i + q] == b@[q],
            decreases b.len() - k,
        {
            k = k + 1;
        }
        if k == b.len() {
            assert(a@.subrange(i as int, i + b.len()) =~= b@);
            return true;
        }
        assert(a@.subrange(i as int, i + b.len())[k as int] != b@[k as int]);
        i = i + 1;
    }
    proof {
        assert forall|p: int| 0 <= p && p + t@.len() <= s@.len() implies #[trigger] s@.subrange(p, p + t@.len()) != t@ by {
            assert(a@.subrange(p, p + b.len()) != b@);
        }
    }
    false
}


/// The value of the decimal digit `c`, or -1 when `c` is not one
/// (`char::to_digit(10)`).
pub open spec fn digit_val(c: char) -> int {
    let u = c as u32;
    if 48 <= u <= 57 {
        u - 48
    } else {
        -1
    }
}

pub open spec fn all_digits(s: Seq<char>) -> bool {
    forall|i: int| 0 <= i < s.len() ==> digit_val(#[trigger] s[i]) >= 0
}

/// The number written by the decimal digits `s`.
pub open spec fn digits_value(s: Seq<char>) -> nat
    decreases s.len(),
{
    if s.len() == 0 {
        0
    } else {
        digits_value(s.drop_last()) * 10 + digit_val(s.last()) as nat
    }
}

/// The number that `s` writes as `str::parse` reads it for an unsigned
/// type, before its range check: an optional `+`, then one or more digits.
pub open spec fn unsigned_text(s: Seq<char>) -> Option<nat> {
    let d = if s.len() > 0 && s[0] == '+' { s.drop_first() } else { s };
    if d.len() > 0 && all_digits(d) {
        Some(digits_value(d))
    } else {
        None
    }
}

/// `str::parse` on `s` for an unsigned type whose largest value is `max`.
pub open spec fn parse_unsigned_spec(s: Seq<char>, max: nat) -> Option<nat> {
    match unsigned_text(s) {
        Some(v) => if v <= max { Some(v) } else { None },
        None => None,
    }
}

proof fn lemma_digits_prefix(s: Seq<char>, i: int)
    requires
        0 <= i <= s.len(),
        all_digits(s),
    ensures
        digits_value(s.subrange(0, i)) <= digits_value(s),
    decreases s.len() - i,
{
    if i < s.len() {
        lemma_digits_prefix(s, i + 1);
        let t = s.subrange(0, i + 1);
        assert(t.drop_last() =~= s.subrange(0, i));
    } else {
        assert(s.subrange(0, i) =~= s);
    }
}

fn digit_of(c: char) -> (res: Option<u64>)
    ensures
        match res {
            Some(d) => digit_val(c) == d as int && d < 10,
            None => digit_val(c) == -1,
        },
{
    let u = c as u32;
    if 48 <= u && u <= 57 {
        Some((u - 48) as u64)
    } else {
        None
    }
}

/// Reads an unsigned decimal number, at most `max` (`str::parse` for an
/// unsigned type).
pub fn parse_unsigned(s: &[char], max: u64) -> (res: Option<u64>)
    ensures
        match res {
            Some(v) => parse_unsigned_spec(s@, max as nat) == Some(v as nat),
            None => parse_unsigned_spec(s@, max as nat) is None,
        },
{
    let n = s.len();
    let start: usize = if n > 0 && s[0] == '+' { 1 } else { 0 };
    let ghost d = if s@.len() > 0 && s@[0] == '+' { s@.drop_first() } else { s@ };
    assert(d =~= s@.subrange(start as int, n as int));
    if start == n {
        return None;
    }
    let mut acc: u64 = 0;
    let mut i: usize = start;
    while i < n
        invariant
            start <= i <= n,
            n == s@.len(),
            d == (if s@.len() > 0 && s@[0] == '+' { s@.drop_first() } else { s@ }),
            d == s@.subrange(start as int, n as int),
            start < n,
            acc as nat == digits_value(d.subrange(0, i - start)),
            acc <= max,
            all_digits(d.subrange(0, i - start)),
        decreases n - i,
    {
        let ghost pre = d.subrange(0, i - start);
        let ghost next = d.subrange(0, i + 1 - start);
        assert(next.drop_last() =~= pre);
        match digit_of(s[i]) {
            None => {
                assert(!all_digits(d)) by {
                    assert(d[i - start] == s@[i as int]);
                }
                assert(unsigned_text(s@) is None);
                return None;
            },
            Some(dv) => {
                assert(all_digits(next)) by {
                    assert forall|k: int| 0 <= k < next.len() implies digit_val(#[trigger] next[k]) >= 0 by {
                        if k < pre.len() {
                            assert(next[k] == pre[k]);
                        }
                    }
                }
                let step = match acc.checked_mul(10) {
                    Some(x) => x.checked_add(dv),
                    None => None,
                };
                match step {
                    Some(v) if v <= max => {
                        acc = v;
                    },
                    _ => {
                        proof {
                            assert(next.last() == s@[i as int]);
                            assert(digits_value(next) == acc * 10 + dv);
                            assert(acc * 10 + dv > max);
                            if all_digits(d) {
                                lemma_digits_prefix(d, i + 1 - start);
                                assert(digits_value(d) > max);
                            }
                            assert(parse_unsigned_spec(s@, max as nat) is None);
                        }
                        return None;
                    },
                }
            },
        }
        i = i + 1;
    }
    assert(d.subrange(0, n - start) =~= d);
    Some(acc)
}


/// Reading back the decimal form of `n` gives `n`.
pub proof fn lemma_decimal_parses(n: nat)
    ensures
        unsigned_text(decimal(n)) == Some(n),
        decimal(n).len() > 0,
        decimal(n)[0] != '+',
        all_digits(decimal(n)),
        digits_value(decimal(n)) == n,
    decreases n,
{
    let d = decimal(n);
    if n < 10 {
        assert(d.drop_last() =~= Seq::<char>::empty());
        assert(digits_value(d.drop_last()) == 0);
    } else {
        lemma_decimal_parses(n / 10);
        let p = decimal(n / 10);
        assert(d.drop_last() =~= p);
        assert(d[0] == p[0]);
        assert forall|i: int| 0 <= i < d.len() implies digit_val(#[trigger] d[i]) >= 0 by {
            if i < p.len() {
                assert(d[i] == p[i]);
            }
        }
        assert(digits_value(d) == digits_value(p) * 10 + (n % 10));
        assert((n / 10) * 10 + n % 10 == n);
    }
}

} // verus!
