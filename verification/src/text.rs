//! Character-level helpers and decimal integer parsing, with the grammar that
//! `u64::from_str` and `i64::from_str` accept as their specification.

use vstd::prelude::*;
use vstd::string::*;

verus! {

/// The characters of a string slice, one per element.
pub fn chars_of(s: &str) -> (v: Vec<char>)
    ensures
        v@ == s@,
{
    let n = s.unicode_len();
    let mut v: Vec<char> = Vec::new();
    let mut i: usize = 0;
    while i < n
        invariant
            n == s@.len(),
            i <= n,
            v@ == s@.subrange(0, i as int),
        decreases n - i,
    {
        let c = s.get_char(i);
        v.push(c);
        i = i + 1;
    }
    assert(v@ == s@.subrange(0, n as int));
    v
}


/// Whether two texts are equal, character by character.
pub fn text_eq(a: &str, b: &str) -> (r: bool)
    ensures
        r == (a@ == b@),
{
    let n = a.unicode_len();
    if n != b.unicode_len() {
        return false;
    }
    let mut i: usize = 0;
    while i < n
        invariant
            n == a@.len(),
            n == b@.len(),
            i <= n,
            forall|k: int| 0 <= k < i ==> a@[k] == b@[k],
        decreases n - i,
    {
        if a.get_char(i) != b.get_char(i) {
            return false;
        }
        i = i + 1;
    }
    assert(a@ =~= b@);
    true
}

/// An ASCII decimal digit.
pub open spec fn is_digit(c: char) -> bool {
    '0' <= c && c <= '9'
}

/// The value of an ASCII decimal digit.
pub open spec fn digit_value(c: char) -> nat {
    (c as int - '0' as int) as nat
}

/// Every character is an ASCII decimal digit.
pub open spec fn all_digits(s: Seq<char>) -> bool {
    forall|i: int| 0 <= i < s.len() ==> is_digit(#[trigger] s[i])
}

/// The value of a run of decimal digits, most significant first.
pub open spec fn decimal_value(s: Seq<char>) -> nat
    decreases s.len(),
{
    if s.len() == 0 {
        0
    } else {
        decimal_value(s.drop_last()) * 10 + digit_value(s.last())
    }
}

/// The digits of an unsigned literal: an optional leading `+` is dropped.
pub open spec fn unsigned_digits(s: Seq<char>) -> Seq<char> {
    if s.len() > 0 && s[0] == '+' {
        s.drop_first()
    } else {
        s
    }
}

/// What `str::parse::<u64>` returns: an optional `+`, then one or more ASCII
/// digits whose value fits in a `u64`; anything else is refused.
pub open spec fn spec_parse_u64(s: Seq<char>) -> Option<u64> {
    let d = unsigned_digits(s);
    if d.len() > 0 && all_digits(d) && decimal_value(d) <= u64::MAX {
        Some(decimal_value(d) as u64)
    } else {
        None
    }
}

/// The text has a leading minus sign.
pub open spec fn is_negative_literal(s: Seq<char>) -> bool {
    s.len() > 0 && s[0] == '-'
}

/// The digits of a signed literal: an optional leading `+` or `-` is dropped.
pub open spec fn signed_digits(s: Seq<char>) -> Seq<char> {
    if s.len() > 0 && (s[0] == '+' || s[0] == '-') {
        s.drop_first()
    } else {
        s
    }
}

/// The mathematical value a signed literal denotes.
pub open spec fn signed_value(s: Seq<char>) -> int {
    if is_negative_literal(s) {
        -(decimal_value(signed_digits(s)) as int)
    } else {
        decimal_value(signed_digits(s)) as int
    }
}

/// What `str::parse::<i64>` returns: an optional `+` or `-`, then one or more
/// ASCII digits whose signed value fits in an `i64`; anything else is refused.
pub open spec fn spec_parse_i64(s: Seq<char>) -> Option<i64> {
    let d = signed_digits(s);
    if d.len() > 0 && all_digits(d) && i64::MIN <= signed_value(s) <= i64::MAX {
        Some(signed_value(s) as i64)
    } else {
        None
    }
}

proof fn lemma_decimal_value_step(s: Seq<char>, k: int)
    requires
        0 <= k < s.len(),
    ensures
        decimal_value(s.subrange(0, k + 1)) == decimal_value(s.subrange(0, k)) * 10
            + digit_value(s[k]),
{
    assert(s.subrange(0, k + 1).drop_last() =~= s.subrange(0, k));
}

proof fn lemma_decimal_value_grows(s: Seq<char>, j: int, k: int)
    requires
        0 <= j <= k <= s.len(),
    ensures
        decimal_value(s.subrange(0, j)) <= decimal_value(s.subrange(0, k)),
    decreases k - j,
{
    if j < k {
        lemma_decimal_value_grows(s, j, k - 1);
        lemma_decimal_value_step(s, k - 1);
    }
}

/// The value of the digits `d[start..]`, or `None` when some character is no
/// digit or the value exceeds `limit`.
fn digits_value(d: &Vec<char>, start: usize, limit: u64) -> (r: Option<u64>)
    requires
        start <= d@.len(),
    ensures
        ({
            let t = d@.subrange(start as int, d@.len() as int);
            r == if all_digits(t) && decimal_value(t) <= limit {
                Some(decimal_value(t) as u64)
            } else {
                None::<u64>
            }
        }),
{
    let ghost t = d@.subrange(start as int, d@.len() as int);
    let n = d.len();
    let mut acc: u64 = 0;
    let mut i = start;
    while i < n
        invariant
            n == d@.len(),
            start <= i <= n,
            t == d@.subrange(start as int, n as int),
            all_digits(t.subrange(0, i - start)),
            acc == decimal_value(t.subrange(0, i - start)),
            acc <= limit,
        decreases n - i,
    {
        let c = d[i];
        proof {
            lemma_decimal_value_step(t, i - start);
        }
        if !('0' <= c && c <= '9') {
            assert(!all_digits(t)) by {
                assert(!is_digit(t[i - start]));
            }
            return None;
        }
        let dv = (c as u64) - ('0' as u64);
        assert(dv == digit_value(c));
        if dv > limit || acc > (limit - dv) / 10 {
            proof {
                assert(acc * 10 + dv > limit) by (nonlinear_arith)
                    requires
                        dv > limit || acc > (limit - dv) / 10,
                        dv <= 9;
                lemma_decimal_value_grows(t, i - start + 1, t.len() as int);
                assert(t.subrange(0, t.len() as int) =~= t);
            }
            return None;
        }
        proof {
            assert(acc * 10 + dv <= limit) by (nonlinear_arith)
                requires
                    acc <= (limit - dv) / 10,
                    dv <= limit;
            assert forall|j: int| 0 <= j < i - start + 1 implies is_digit(
                #[trigger] t.subrange(0, i - start + 1)[j],
            ) by {
                if j < i - start {
                    assert(t.subrange(0, i - start)[j] == t.subrange(0, i - start + 1)[j]);
                }
            }
        }
        acc = acc * 10 + dv;
        i = i + 1;
    }
    assert(t.subrange(0, n - start) =~= t);
    Some(acc)
}


/// Parses an unsigned decimal literal as `str::parse::<u64>` does.
pub fn parse_u64(s: &str) -> (r: Option<u64>)
    ensures
        r == spec_parse_u64(s@),
{
    let d = chars_of(s);
    let start: usize = if d.len() > 0 && d[0] == '+' { 1 } else { 0 };
    assert(unsigned_digits(s@) =~= d@.subrange(start as int, d@.len() as int));
    if start == d.len() {
        return None;
    }
    digits_value(&d, start, u64::MAX)
}

/// Parses a signed decimal literal as `str::parse::<i64>` does.
pub fn parse_i64(s: &str) -> (r: Option<i64>)
    ensures
        r == spec_parse_i64(s@),
{
    let d = chars_of(s);
    let negative = d.len() > 0 && d[0] == '-';
    let start: usize = if d.len() > 0 && (d[0] == '+' || d[0] == '-') { 1 } else { 0 };
    assert(signed_digits(s@) =~= d@.subrange(start as int, d@.len() as int));
    if start == d.len() {
        return None;
    }
    let limit: u64 = if negative { 0x8000_0000_0000_0000 } else { 0x7fff_ffff_ffff_ffff };
    match digits_value(&d, start, limit) {
        None => None,
        Some(m) => {
            if negative {
                if m == 0x8000_0000_0000_0000 {
                    Some(i64::MIN)
                } else {
                    Some(-(m as i64))
                }
            } else {
                Some(m as i64)
            }
        },
    }
}

} // verus!
