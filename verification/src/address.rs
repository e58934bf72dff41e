//! The reference-address grammar: three shapes per expression kind, selected
//! by the number of segments between offset delimiters, each yielding an
//! address descriptor.

use vstd::prelude::*;
use crate::bigint::{bigint_of_decimal, is_bigint_literal, parse_bigint};
use crate::numeric::{int_literal_val, is_i32_literal, parse_i32};
use crate::text::{
    before_char, before_char_vec, chars_of, second_field, second_field_vec, split_delim,
    split_delim_str, strip_chars, strip_chars_vec, third_field, third_field_vec,
};

verus! {

/// A base register of the machine.
#[derive(Clone, Copy, Debug, PartialEq, Eq, Structural)]
pub enum Register {
    AP,
    FP,
}

/// Why an expression was rejected.
#[derive(Clone, Copy, Debug, PartialEq, Eq, Structural)]
pub enum ParseError {
    /// The expression has a number of segments other than one, two or three.
    UnsupportedSegmentCount,
    /// An isolated offset or immediate text is not a numeral of its type.
    NumericLiteralMalformed,
}

/// Where a named value lives: a base register (absent when the register
/// token is unrecognized), up to two constant offsets or one offset and an
/// immediate, and whether the computed address is read once more.
#[derive(Clone, Debug, PartialEq, Eq)]
pub struct ValueAddress {
    pub register: Option<Register>,
    pub offset1: i32,
    pub offset2: i32,
    pub immediate: Option<num_bigint::BigInt>,
    pub dereference: bool,
}

/// The register a token denotes; any other token means "no register".
pub open spec fn reg_of_token(t: Seq<char>) -> Option<Register> {
    if t == seq!['a', 'p'] {
        Some(Register::AP)
    } else if t == seq!['f', 'p'] {
        Some(Register::FP)
    } else {
        None
    }
}

/// The register of an optional token; a token that could not even be
/// isolated also means "no register".
pub open spec fn reg_of_field(f: Option<Seq<char>>) -> Option<Register> {
    match f {
        Some(t) => reg_of_token(t),
        None => None,
    }
}

pub open spec fn cast_ap_token() -> Seq<char> {
    seq!['c', 'a', 's', 't', '(', 'a', 'p']
}

pub open spec fn cast_fp_token() -> Seq<char> {
    seq!['c', 'a', 's', 't', '(', 'f', 'p']
}

/// The register of a bare expression without offsets, whose first field
/// still carries the cast prefix.
pub open spec fn reg_of_cast_field(f: Seq<char>) -> Option<Register> {
    if f == cast_ap_token() {
        Some(Register::AP)
    } else if f == cast_fp_token() {
        Some(Register::FP)
    } else {
        None
    }
}

/// Dereferenced, one segment: only a register, no offsets.
pub open spec fn spec_deref_no_offsets(segs: Seq<Seq<char>>) -> Result<ValueAddress, ParseError>
    recommends
        segs.len() >= 1,
{
    Ok(
        ValueAddress {
            register: reg_of_field(second_field(before_char(segs[0], ','), '(')),
            offset1: 0,
            offset2: 0,
            immediate: None,
            dereference: true,
        },
    )
}

/// Dereferenced, two segments: a register and one offset.
pub open spec fn spec_deref_one_offset(segs: Seq<Seq<char>>) -> Result<ValueAddress, ParseError>
    recommends
        segs.len() >= 2,
{
    let lit = strip_chars(before_char(segs[1], ','), true);
    if is_i32_literal(lit) {
        Ok(
            ValueAddress {
                register: reg_of_field(second_field(segs[0], '(')),
                offset1: int_literal_val(lit) as i32,
                offset2: 0,
                immediate: None,
                dereference: true,
            },
        )
    } else {
        Err(ParseError::NumericLiteralMalformed)
    }
}

/// Dereferenced, three segments: a register and two offsets.
pub open spec fn spec_deref_two_offsets(segs: Seq<Seq<char>>) -> Result<ValueAddress, ParseError>
    recommends
        segs.len() >= 3,
{
    let lit1 = strip_chars(segs[1], true);
    let lit2 = strip_chars(before_char(segs[2], ','), false);
    if is_i32_literal(lit1) && is_i32_literal(lit2) {
        Ok(
            ValueAddress {
                register: reg_of_field(third_field(segs[0], '[')),
                offset1: int_literal_val(lit1) as i32,
                offset2: int_literal_val(lit2) as i32,
                immediate: None,
                dereference: true,
            },
        )
    } else {
        Err(ParseError::NumericLiteralMalformed)
    }
}

/// Bare reference, one segment: only a register, no offsets.
pub open spec fn spec_ref_no_offsets(segs: Seq<Seq<char>>) -> Result<ValueAddress, ParseError>
    recommends
        segs.len() >= 1,
{
    Ok(
        ValueAddress {
            register: reg_of_cast_field(before_char(segs[0], ',')),
            offset1: 0,
            offset2: 0,
            immediate: None,
            dereference: false,
        },
    )
}

/// Bare reference, two segments: a register and one offset.
pub open spec fn spec_ref_one_offset(segs: Seq<Seq<char>>) -> Result<ValueAddress, ParseError>
    recommends
        segs.len() >= 2,
{
    let lit = strip_chars(before_char(segs[1], ','), false);
    if is_i32_literal(lit) {
        Ok(
            ValueAddress {
                register: reg_of_field(second_field(segs[0], '(')),
                offset1: int_literal_val(lit) as i32,
                offset2: 0,
                immediate: None,
                dereference: false,
            },
        )
    } else {
        Err(ParseError::NumericLiteralMalformed)
    }
}

/// Bare reference, three segments: a register, one offset, and an
/// arbitrary-precision immediate in place of a second offset.
pub open spec fn spec_ref_two_offsets(segs: Seq<Seq<char>>) -> Result<ValueAddress, ParseError>
    recommends
        segs.len() >= 3,
{
    let lit1 = strip_chars(segs[1], true);
    let imm = strip_chars(before_char(segs[2], ','), false);
    if is_i32_literal(lit1) && is_bigint_literal(imm) {
        Ok(
            ValueAddress {
                register: reg_of_field(second_field(segs[0], '[')),
                offset1: int_literal_val(lit1) as i32,
                offset2: 0,
                immediate: Some(bigint_of_decimal(imm)),
                dereference: false,
            },
        )
    } else {
        Err(ParseError::NumericLiteralMalformed)
    }
}

/// The descriptor of a dereferenced expression, by segment count.
pub open spec fn spec_parse_dereference(s: Seq<char>) -> Result<ValueAddress, ParseError> {
    let segs = split_delim(s);
    if segs.len() == 1 {
        spec_deref_no_offsets(segs)
    } else if segs.len() == 2 {
        spec_deref_one_offset(segs)
    } else if segs.len() == 3 {
        spec_deref_two_offsets(segs)
    } else {
        Err(ParseError::UnsupportedSegmentCount)
    }
}

/// The descriptor of a bare reference expression, by segment count.
pub open spec fn spec_parse_reference(s: Seq<char>) -> Result<ValueAddress, ParseError> {
    let segs = split_delim(s);
    if segs.len() == 1 {
        spec_ref_no_offsets(segs)
    } else if segs.len() == 2 {
        spec_ref_one_offset(segs)
    } else if segs.len() == 3 {
        spec_ref_two_offsets(segs)
    } else {
        Err(ParseError::UnsupportedSegmentCount)
    }
}

/// The register a token vector denotes.
fn register_of(t: &Vec<char>) -> (r: Option<Register>)
    ensures
        r == reg_of_token(t@),
{
    if t.len() == 2 {
        let c0 = t[0];
        let c1 = t[1];
        if c0 == 'a' && c1 == 'p' {
            proof {
                assert(t@ =~= seq!['a', 'p']);
            }
            Some(Register::AP)
        } else if c0 == 'f' && c1 == 'p' {
            proof {
                assert(t@ =~= seq!['f', 'p']);
            }
            Some(Register::FP)
        } else {
            None
        }
    } else {
        None
    }
}

/// The register of an optional token vector.
fn register_of_field(f: &Option<Vec<char>>) -> (r: Option<Register>)
    ensures
        (f matches Some(t) ==> r == reg_of_token(t@)),
        (f is None ==> r is None),
{
    match f {
        Some(t) => register_of(t),
        None => None,
    }
}

/// The register of a cast-prefixed field of a bare expression.
fn register_of_cast_field(f: &Vec<char>) -> (r: Option<Register>)
    ensures
        r == reg_of_cast_field(f@),
{
    if f.len() == 7 && f[0] == 'c' && f[1] == 'a' && f[2] == 's' && f[3] == 't' && f[4] == '(' {
        let c5 = f[5];
        let c6 = f[6];
        if c5 == 'a' && c6 == 'p' {
            proof {
                assert(f@ =~= cast_ap_token());
            }
            Some(Register::AP)
        } else if c5 == 'f' && c6 == 'p' {
            proof {
                assert(f@ =~= cast_fp_token());
            }
            Some(Register::FP)
        } else {
            None
        }
    } else {
        None
    }
}

/// Parses the single segment of a dereferenced expression without offsets.
pub fn parse_dereference_no_offsets(splitted_value_str: Vec<&str>) -> (res: Result<
    ValueAddress,
    ParseError,
>)
    requires
        splitted_value_str@.len() >= 1,
    ensures
        res == spec_deref_no_offsets(splitted_value_str.deep_view()),
{
    proof {
        assert(splitted_value_str.deep_view()[0] == splitted_value_str@[0]@);
    }
    let seg0 = chars_of(splitted_value_str[0]);
    let before = before_char_vec(&seg0, ',');
    let field = second_field_vec(&before, '(');
    let register = register_of_field(&field);
    Ok(ValueAddress { register, offset1: 0, offset2: 0, immediate: None, dereference: true })
}

/// Parses the two segments of a dereferenced expression with one offset.
pub fn parse_dereference_with_one_offset(splitted_value_str: Vec<&str>) -> (res: Result<
    ValueAddress,
    ParseError,
>)
    requires
        splitted_value_str@.len() >= 2,
    ensures
        res == spec_deref_one_offset(splitted_value_str.deep_view()),
{
    proof {
        assert(splitted_value_str.deep_view()[0] == splitted_value_str@[0]@);
        assert(splitted_value_str.deep_view()[1] == splitted_value_str@[1]@);
    }
    let seg0 = chars_of(splitted_value_str[0]);
    let field = second_field_vec(&seg0, '(');
    let register = register_of_field(&field);
    let seg1 = chars_of(splitted_value_str[1]);
    let before = before_char_vec(&seg1, ',');
    let lit = strip_chars_vec(&before, true);
    match parse_i32(&lit) {
        Some(offset1) => Ok(
            ValueAddress { register, offset1, offset2: 0, immediate: None, dereference: true },
        ),
        None => Err(ParseError::NumericLiteralMalformed),
    }
}

/// Parses the three segments of a dereferenced expression with two offsets.
pub fn parse_dereference_with_two_offsets(splitted_value_str: Vec<&str>) -> (res: Result<
    ValueAddress,
    ParseError,
>)
    requires
        splitted_value_str@.len() >= 3,
    ensures
        res == spec_deref_two_offsets(splitted_value_str.deep_view()),
{
    proof {
        assert(splitted_value_str.deep_view()[0] == splitted_value_str@[0]@);
        assert(splitted_value_str.deep_view()[1] == splitted_value_str@[1]@);
        assert(splitted_value_str.deep_view()[2] == splitted_value_str@[2]@);
    }
    let seg0 = chars_of(splitted_value_str[0]);
    let field = third_field_vec(&seg0, '[');
    let register = register_of_field(&field);
    let seg1 = chars_of(splitted_value_str[1]);
    let lit1 = strip_chars_vec(&seg1, true);
    let seg2 = chars_of(splitted_value_str[2]);
    let before2 = before_char_vec(&seg2, ',');
    let lit2 = strip_chars_vec(&before2, false);
    let offset1 = match parse_i32(&lit1) {
        Some(v) => v,
        None => {
            return Err(ParseError::NumericLiteralMalformed);
        },
    };
    match parse_i32(&lit2) {
        Some(offset2) => Ok(
            ValueAddress { register, offset1, offset2, immediate: None, dereference: true },
        ),
        None => Err(ParseError::NumericLiteralMalformed),
    }
}

/// Parses the single segment of a bare reference without offsets.
pub fn parse_reference_no_offsets(splitted_value_str: Vec<&str>) -> (res: Result<
    ValueAddress,
    ParseError,
>)
    requires
        splitted_value_str@.len() >= 1,
    ensures
        res == spec_ref_no_offsets(splitted_value_str.deep_view()),
{
    proof {
        assert(splitted_value_str.deep_view()[0] == splitted_value_str@[0]@);
    }
    let seg0 = chars_of(splitted_value_str[0]);
    let before = before_char_vec(&seg0, ',');
    let register = register_of_cast_field(&before);
    Ok(ValueAddress { register, offset1: 0, offset2: 0, immediate: None, dereference: false })
}

/// Parses the two segments of a bare reference with one offset.
pub fn parse_reference_with_one_offset(splitted_value_str: Vec<&str>) -> (res: Result<
    ValueAddress,
    ParseError,
>)
    requires
        splitted_value_str@.len() >= 2,
    ensures
        res == spec_ref_one_offset(splitted_value_str.deep_view()),
{
    proof {
        assert(splitted_value_str.deep_view()[0] == splitted_value_str@[0]@);
        assert(splitted_value_str.deep_view()[1] == splitted_value_str@[1]@);
    }
    let seg0 = chars_of(splitted_value_str[0]);
    let field = second_field_vec(&seg0, '(');
    let register = register_of_field(&field);
    let seg1 = chars_of(splitted_value_str[1]);
    let before = before_char_vec(&seg1, ',');
    let lit = strip_chars_vec(&before, false);
    match parse_i32(&lit) {
        Some(offset1) => Ok(
            ValueAddress { register, offset1, offset2: 0, immediate: None, dereference: false },
        ),
        None => Err(ParseError::NumericLiteralMalformed),
    }
}

/// Parses the three segments of a bare reference with an offset and an
/// immediate.
pub fn parse_reference_with_two_offsets(splitted_value_str: Vec<&str>) -> (res: Result<
    ValueAddress,
    ParseError,
>)
    requires
        splitted_value_str@.len() >= 3,
    ensures
        res == spec_ref_two_offsets(splitted_value_str.deep_view()),
{
    proof {
        assert(splitted_value_str.deep_view()[0] == splitted_value_str@[0]@);
        assert(splitted_value_str.deep_view()[1] == splitted_value_str@[1]@);
        assert(splitted_value_str.deep_view()[2] == splitted_value_str@[2]@);
    }
    let seg0 = chars_of(splitted_value_str[0]);
    let field = second_field_vec(&seg0, '[');
    let register = register_of_field(&field);
    let seg1 = chars_of(splitted_value_str[1]);
    let lit1 = strip_chars_vec(&seg1, true);
    let seg2 = chars_of(splitted_value_str[2]);
    let before2 = before_char_vec(&seg2, ',');
    let imm = strip_chars_vec(&before2, false);
    let offset1 = match parse_i32(&lit1) {
        Some(v) => v,
        None => {
            return Err(ParseError::NumericLiteralMalformed);
        },
    };
    match parse_bigint(&imm) {
        Ok(b) => Ok(
            ValueAddress {
                register,
                offset1,
                offset2: 0,
                immediate: Some(b),
                dereference: false,
            },
        ),
        Err(_) => Err(ParseError::NumericLiteralMalformed),
    }
}

/// Parses a dereferenced reference-address expression.
pub fn parse_dereference(value: &str) -> (res: Result<ValueAddress, ParseError>)
    ensures
        res == spec_parse_dereference(value@),
{
    let splitted = split_delim_str(value);
    proof {
        assert(splitted.deep_view().len() == splitted@.len());
    }
    let n = splitted.len();
    if n == 1 {
        parse_dereference_no_offsets(splitted)
    } else if n == 2 {
        parse_dereference_with_one_offset(splitted)
    } else if n == 3 {
        parse_dereference_with_two_offsets(splitted)
    } else {
        Err(ParseError::UnsupportedSegmentCount)
    }
}

/// Parses a bare reference-address expression.
pub fn parse_reference(value: &str) -> (res: Result<ValueAddress, ParseError>)
    ensures
        res == spec_parse_reference(value@),
{
    let splitted = split_delim_str(value);
    proof {
        assert(splitted.deep_view().len() == splitted@.len());
    }
    let n = splitted.len();
    if n == 1 {
        parse_reference_no_offsets(splitted)
    } else if n == 2 {
        parse_reference_with_one_offset(splitted)
    } else if n == 3 {
        parse_reference_with_two_offsets(splitted)
    } else {
        Err(ParseError::UnsupportedSegmentCount)
    }
}

} // verus!
