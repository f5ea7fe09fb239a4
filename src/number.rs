use vstd::prelude::*;

verus! {

/// Whether `c` is an ASCII decimal digit.
pub open spec fn is_digit(c: char) -> bool {
    '0' <= c <= '9'
}

/// The value of a sequence of decimal digits, most significant first.
pub open spec fn digits_value(d: Seq<char>) -> int
    decreases d.len(),
{
    if d.len() == 0 {
        0
    } else {
        digits_value(d.drop_last()) * 10 + (d.last() as int - '0' as int)
    }
}

/// The integer that `s` writes in base ten: an optional `+` or `-`, then one
/// or more digits, and nothing else.
pub open spec fn decimal_value(s: Seq<char>) -> Option<int> {
    let signed = s.len() > 0 && (s[0] == '-' || s[0] == '+');
    let body = if signed { s.drop_first() } else { s };
    if body.len() > 0 && forall|i: int| 0 <= i < body.len() ==> is_digit(#[trigger] body[i]) {
        if signed && s[0] == '-' {
            Some(-digits_value(body))
        } else {
            Some(digits_value(body))
        }
    } else {
        None
    }
}

/// The `i64` that `s` writes in base ten, if it writes one that fits.
pub open spec fn parsed_i64(s: Seq<char>) -> Option<i64> {
    match decimal_value(s) {
        Some(v) => if i64::MIN <= v <= i64::MAX {
            Some(v as i64)
        } else {
            None
        },
        None => None,
    }
}

/// Relies on `str::parse::<i64>` (`i64::from_str`), which accepts an optional
/// `+` or `-` followed by one or more ASCII digits, and nothing else, and
/// fails when the value does not fit in `i64`.
#[verifier::external_body]
pub(crate) fn parse_i64(s: &str) -> (r: Option<i64>)
    ensures
        r == parsed_i64(s@),
{
    s.parse::<i64>().ok()
}

} // verus!
