//! Reading the text of attribute names and literals.
use vstd::prelude::*;
use vstd::string::StrSliceExecFns;

verus! {

/// The text between the quotes of a string literal written `"..."`, or `None` where the text
/// does not start and end with a quote.
pub open spec fn quoted_inner(t: Seq<char>) -> Option<Seq<char>> {
    if t.len() >= 2 && t[0] == '"' && t[t.len() - 1] == '"' {
        Some(t.subrange(1, t.len() - 1))
    } else {
        None
    }
}

/// Whether every character of `s` is an ASCII decimal digit.
pub open spec fn all_digits(s: Seq<char>) -> bool {
    forall|i: int| 0 <= i < s.len() ==> '0' <= #[trigger] s[i] <= '9'
}

/// The number that the decimal digits `s` write, most significant first.
pub open spec fn digits_value(s: Seq<char>) -> nat
    decreases s.len(),
{
    if s.len() == 0 {
        0
    } else {
        digits_value(s.drop_last()) * 10 + ((s.last() as int) - ('0' as int)) as nat
    }
}

/// The digits of an unsigned integer's text: all of it but a leading `+`.
pub open spec fn unsigned_digits(s: Seq<char>) -> Seq<char> {
    if s.len() > 0 && s[0] == '+' {
        s.skip(1)
    } else {
        s
    }
}

/// How std reads an unsigned integer from text, before the range check: an optional `+`, then
/// one or more decimal digits and nothing else.
pub open spec fn unsigned_text(s: Seq<char>) -> Option<nat> {
    let d = unsigned_digits(s);
    if d.len() > 0 && all_digits(d) {
        Some(digits_value(d))
    } else {
        None
    }
}

/// The value of the unsigned integer that `s` writes, where it is no more than `max`.
pub open spec fn unsigned_up_to(s: Seq<char>, max: nat) -> Option<nat> {
    match unsigned_text(s) {
        Some(v) => if v <= max { Some(v) } else { None },
        None => None,
    }
}

/// Whether `s` reads `lit`.
pub fn text_is(s: &String, lit: &str) -> (r: bool)
    ensures
        r == (s@ == lit@),
{
    *s == String::from_str(lit)
}

/// The text between the quotes of the string literal `t`.
pub fn quoted_text(t: &String) -> (r: Option<String>)
    requires
        t@ != seq!['"'],
    ensures
        match quoted_inner(t@) {
            Some(inner) => r matches Some(s) && s@ == inner,
            None => r is None,
        },
{
    let text = t.as_str();
    let n = text.unicode_len();
    if n >= 2 && text.get_char(0) == '"' && text.get_char(n - 1) == '"' {
        let inner = text.substring_char(1, n - 1);
        Some(String::from_str(inner))
    } else {
        if n == 1 && text.get_char(0) == '"' {
            assert(t@ =~= seq!['"']);
        }
        None
    }
}

/// Each prefix of digits writes no more than the digits it is a prefix of.
proof fn lemma_digits_prefix(s: Seq<char>, i: int)
    requires
        0 <= i <= s.len(),
    ensures
        digits_value(s.take(i)) <= digits_value(s),
    decreases s.len() - i,
{
    if i < s.len() {
        lemma_digits_prefix(s, i + 1);
        assert(s.take(i + 1).drop_last() =~= s.take(i));
    } else {
        assert(s.take(i) =~= s);
    }
}

/// Read the unsigned integer that `s` writes, as std's `parse` does for an unsigned type whose
/// greatest value is `max`.
pub fn parse_unsigned(s: &String, max: u64) -> (r: Option<u64>)
    ensures
        match unsigned_up_to(s@, max as nat) {
            Some(v) => r == Some(v as u64),
            None => r is None,
        },
{
    let text = s.as_str();
    let n = text.unicode_len();
    let start: usize = if n > 0 && text.get_char(0) == '+' { 1 } else { 0 };
    let ghost d = unsigned_digits(s@);
    assert(d =~= s@.subrange(start as int, n as int));
    if start >= n {
        return None;
    }
    let mut value: u64 = 0;
    let mut i: usize = start;
    while i < n
        invariant
            start <= i <= n,
            n == s@.len(),
            text@ == s@,
            d == unsigned_digits(s@),
            d =~= s@.subrange(start as int, n as int),
            forall|k: int| start <= k < i ==> '0' <= #[trigger] s@[k] <= '9',
            value as nat == digits_value(d.take(i - start)),
            value <= max,
        decreases n - i,
    {
        let c = text.get_char(i);
        if c < '0' || c > '9' {
            proof {
                assert(d[i - start] == c);
                assert(!all_digits(d));
                assert(unsigned_text(s@) is None);
            }
            return None;
        }
        let digit: u64 = (c as u64) - ('0' as u64);
        proof {
            assert(d.take(i + 1 - start).drop_last() =~= d.take(i - start));
            assert(d.take(i + 1 - start).last() == c);
            assert(digits_value(d.take(i + 1 - start)) == value * 10 + digit);
        }
        let next = match value.checked_mul(10) {
            Some(t) => t.checked_add(digit),
            None => None,
        };
        match next {
            Some(v) if v <= max => {
                value = v;
            },
            _ => {
                proof {
                    lemma_digits_prefix(d, i + 1 - start);
                    assert(value * 10 + digit > max);
                    if all_digits(d) {
                        assert(d.len() > 0);
                        assert(unsigned_text(s@) == Some(digits_value(d)));
                    }
                    assert(unsigned_up_to(s@, max as nat) is None);
                }
                return None;
            },
        }
        i = i + 1;
    }
    proof {
        assert(d.take(n - start) =~= d);
        assert(all_digits(d)) by {
            assert forall|k: int| 0 <= k < d.len() implies '0' <= #[trigger] d[k] <= '9' by {
                assert(d[k] == s@[k + start]);
            }
        }
    }
    Some(value)
}

} // verus!
