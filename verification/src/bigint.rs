//! The arbitrary-precision immediate values of reference expressions are
//! held as `num_bigint::BigInt`. Parsing a numeral into one is delegated to
//! that crate behind a single trusted wrapper; everything else in this crate
//! is verified against the wrapper's contract.

use vstd::prelude::*;
use crate::numeric::is_digit_char;

verus! {

#[verifier::external_type_specification]
#[verifier::external_body]
pub struct ExBigInt(num_bigint::BigInt);

#[verifier::external_type_specification]
#[verifier::external_body]
pub struct ExParseBigIntError(num_bigint::ParseBigIntError);

/// `s` without one leading minus sign, unless a plus sign follows it (in
/// which case the text is left as it stands, and cannot be a numeral).
pub open spec fn strip_minus(s: Seq<char>) -> Seq<char> {
    if s.len() > 0 && s[0] == '-' && !(s.len() > 1 && s[1] == '+') {
        s.skip(1)
    } else {
        s
    }
}

/// `s` without one leading plus sign, unless another plus sign follows it.
pub open spec fn strip_plus(s: Seq<char>) -> Seq<char> {
    if s.len() > 0 && s[0] == '+' && !(s.len() > 1 && s[1] == '+') {
        s.skip(1)
    } else {
        s
    }
}

/// A non-empty digit run that may hold underscores after its first
/// character.
pub open spec fn is_digit_run(t: Seq<char>) -> bool {
    &&& t.len() > 0
    &&& t[0] != '_'
    &&& forall|i: int| 0 <= i < t.len() ==> (is_digit_char(t[i]) || t[i] == '_')
}

/// The exact texts accepted as decimal big-integer numerals: an optional
/// minus sign, then an optional plus sign, then a digit run.
pub open spec fn is_bigint_literal(s: Seq<char>) -> bool {
    is_digit_run(strip_plus(strip_minus(s)))
}

/// The big integer a decimal numeral denotes. Its value is pinned down only
/// as a function of the text; tests exercise concrete values.
pub uninterp spec fn bigint_of_decimal(s: Seq<char>) -> num_bigint::BigInt;

/// Relies on `num_bigint::BigInt`'s `FromStr` impl (decimal
/// `from_str_radix`): it accepts exactly an optional minus sign, an optional
/// plus sign, and a non-empty run of decimal digits with embedded
/// underscores, and its result is a function of the text alone.
#[verifier::external_body]
pub(crate) fn parse_bigint(cs: &Vec<char>) -> (r: Result<
    num_bigint::BigInt,
    num_bigint::ParseBigIntError,
>)
    ensures
        r is Ok <==> is_bigint_literal(cs@),
        r matches Ok(b) ==> b == bigint_of_decimal(cs@),
{
    let s: String = cs.iter().collect();
    s.parse::<num_bigint::BigInt>()
}

} // verus!
