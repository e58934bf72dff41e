//! The grammar-wide guarantees of the parser, proved once and for all
//! inputs: exactly when parsing succeeds, the mutual exclusion of second
//! offset and immediate, and the sign-preserving round trip of numerals
//! through the stripping of structural characters.

use vstd::prelude::*;
use crate::address::{
    reg_of_token, spec_parse_dereference, spec_parse_reference, ParseError, ValueAddress,
};
use crate::bigint::is_bigint_literal;
use crate::numeric::{
    int_literal_val, is_digit_char, is_i32_literal, is_int_literal, literal_body,
};
use crate::text::{
    before_char, is_strip_char, lemma_find_char_is, lemma_no_delim_when_no_space_plus,
    lemma_split_delim_compose, lemma_split_delim_none, lemma_strip_chars_concat,
    lemma_strip_chars_id, split_delim, strip_chars,
};

verus! {

/// True of a token that may stand where the grammar puts a register name:
/// it holds none of the characters the surrounding structure is made of.
pub open spec fn is_plain_token(t: Seq<char>) -> bool {
    forall|i: int| 0 <= i < t.len() ==> (#[trigger] t[i] != ' ' && t[i] != ',' && t[i] != '('
        && t[i] != ')' && t[i] != '[' && t[i] != ']')
}

/// True of a trailing text (a type annotation and closing punctuation) that
/// holds no offset delimiter.
pub open spec fn is_plain_tail(t: Seq<char>) -> bool {
    forall|i: int| 0 <= i < t.len() - 1 && #[trigger] t[i] == ' ' ==> t[i + 1] != '+'
}

/// A signed numeral is a plain token: digits and signs are not structural.
pub proof fn lemma_literal_is_plain(t: Seq<char>)
    requires
        is_int_literal(t),
    ensures
        is_plain_token(t),
{
    assert forall|i: int| 0 <= i < t.len() implies (#[trigger] t[i] != ' ' && t[i] != ','
        && t[i] != '(' && t[i] != ')' && t[i] != '[' && t[i] != ']') by {
        let body = literal_body(t);
        if t.len() > 0 && (t[0] == '-' || t[0] == '+') && i == 0 {
        } else {
            if t.len() > 0 && (t[0] == '-' || t[0] == '+') {
                assert(body[i - 1] == t[i]);
            } else {
                assert(body[i] == t[i]);
            }
            assert(is_digit_char(t[i]));
            assert(' ' as u32 == 32 && ',' as u32 == 44 && '(' as u32 == 40 && ')' as u32 == 41
                && '[' as u32 == 91 && ']' as u32 == 93);
        }
    }
}

/// The opening text of a dereferenced expression.
pub open spec fn deref_start() -> Seq<char> {
    seq!['[', 'c', 'a', 's', 't', '(']
}

/// The opening text of a bare reference expression.
pub open spec fn ref_start() -> Seq<char> {
    seq!['c', 'a', 's', 't', '(']
}

/// A dereferenced expression without offsets parses for every register
/// token and every trailing annotation, the unrecognized tokens included.
pub proof fn lemma_grammar_deref_no_offsets(reg: Seq<char>, rest: Seq<char>)
    requires
        is_plain_token(reg),
        is_plain_tail(rest),
    ensures
        spec_parse_dereference(deref_start() + reg + seq![','] + rest) == Ok::<
            ValueAddress,
            ParseError,
        >(
            ValueAddress {
                register: reg_of_token(reg),
                offset1: 0,
                offset2: 0,
                immediate: None,
                dereference: true,
            },
        ),
{
    let s = deref_start() + reg + seq![','] + rest;
    let p = 6 + reg.len() as int;
    assert forall|i: int| 0 <= i < s.len() - 1 && #[trigger] s[i] == ' ' implies s[i + 1] != '+' by {
        if i < 6 {
        } else if i < p {
            assert(s[i] == reg[i - 6]);
        } else if i == p {
            assert(s[i] == ',');
        } else {
            assert(s[i] == rest[i - p - 1]);
            if i + 1 < s.len() {
                assert(s[i + 1] == rest[i - p]);
            }
        }
    }
    lemma_no_delim_when_no_space_plus(s);
    lemma_split_delim_none(s);
    assert(split_delim(s) == seq![s]);
    assert forall|j: int| 0 <= j < p implies s[j] != ',' by {
        if 6 <= j {
            assert(s[j] == reg[j - 6]);
        }
    }
    lemma_find_char_is(s, ',', p);
    assert(before_char(s, ',') =~= deref_start() + reg);
    let f = deref_start() + reg;
    assert forall|j: int| 0 <= j < 5 implies f[j] != '(' by {}
    lemma_find_char_is(f, '(', 5);
    assert(f.skip(6) =~= reg);
    assert forall|j: int| 0 <= j < reg.len() implies reg[j] != '(' by {}
    lemma_find_char_is(reg, '(', reg.len() as int);
    assert(reg.take(reg.len() as int) =~= reg);
}

/// A bare reference without offsets parses for every register token and
/// every trailing annotation, the unrecognized tokens included.
pub proof fn lemma_grammar_ref_no_offsets(reg: Seq<char>, rest: Seq<char>)
    requires
        is_plain_token(reg),
        is_plain_tail(rest),
    ensures
        spec_parse_reference(ref_start() + reg + seq![','] + rest) == Ok::<
            ValueAddress,
            ParseError,
        >(
            ValueAddress {
                register: reg_of_token(reg),
                offset1: 0,
                offset2: 0,
                immediate: None,
                dereference: false,
            },
        ),
{
    let s = ref_start() + reg + seq![','] + rest;
    let p = 5 + reg.len() as int;
    assert forall|i: int| 0 <= i < s.len() - 1 && #[trigger] s[i] == ' ' implies s[i + 1] != '+' by {
        if i < 5 {
        } else if i < p {
            assert(s[i] == reg[i - 5]);
        } else if i == p {
            assert(s[i] == ',');
        } else {
            assert(s[i] == rest[i - p - 1]);
            if i + 1 < s.len() {
                assert(s[i + 1] == rest[i - p]);
            }
        }
    }
    lemma_no_delim_when_no_space_plus(s);
    lemma_split_delim_none(s);
    assert(split_delim(s) == seq![s]);
    assert forall|j: int| 0 <= j < p implies s[j] != ',' by {
        if 5 <= j {
            assert(s[j] == reg[j - 5]);
        }
    }
    lemma_find_char_is(s, ',', p);
    let f = before_char(s, ',');
    assert(f =~= ref_start() + reg);
    if reg =~= seq!['a', 'p'] {
        assert(f =~= crate::address::cast_ap_token());
    } else if reg =~= seq!['f', 'p'] {
        assert(f =~= crate::address::cast_fp_token());
    } else {
        if f == crate::address::cast_ap_token() {
            assert(reg.len() == 2 && reg[0] == f[5] && reg[1] == f[6]);
            assert(reg =~= seq!['a', 'p']);
        }
        if f == crate::address::cast_fp_token() {
            assert(reg.len() == 2 && reg[0] == f[5] && reg[1] == f[6]);
            assert(reg =~= seq!['f', 'p']);
        }
    }
}

/// The dereferenced parser is total over the grammar: it fails only on a
/// segment count above three or on a malformed numeral, never on the
/// register token. Being a function of the input text, it is also
/// deterministic: every call on one input yields this one result.
pub proof fn lemma_parse_dereference_total(s: Seq<char>)
    ensures
        split_delim(s).len() >= 1,
        split_delim(s).len() == 1 ==> spec_parse_dereference(s) is Ok,
        split_delim(s).len() == 2 ==> (spec_parse_dereference(s) is Ok <==> is_i32_literal(
            strip_chars(before_char(split_delim(s)[1], ','), true),
        )),
        split_delim(s).len() == 3 ==> (spec_parse_dereference(s) is Ok <==> is_i32_literal(
            strip_chars(split_delim(s)[1], true),
        ) && is_i32_literal(strip_chars(before_char(split_delim(s)[2], ','), false))),
        split_delim(s).len() > 3 ==> spec_parse_dereference(s) == Err::<ValueAddress, ParseError>(
            ParseError::UnsupportedSegmentCount,
        ),
        spec_parse_dereference(s) is Err ==> spec_parse_dereference(s)->Err_0 == (
        if split_delim(s).len() > 3 {
            ParseError::UnsupportedSegmentCount
        } else {
            ParseError::NumericLiteralMalformed
        }),
{
    crate::text::lemma_split_delim_len(s);
}

/// The bare-reference parser is total over the grammar, in the same sense.
pub proof fn lemma_parse_reference_total(s: Seq<char>)
    ensures
        split_delim(s).len() >= 1,
        split_delim(s).len() == 1 ==> spec_parse_reference(s) is Ok,
        split_delim(s).len() == 2 ==> (spec_parse_reference(s) is Ok <==> is_i32_literal(
            strip_chars(before_char(split_delim(s)[1], ','), false),
        )),
        split_delim(s).len() == 3 ==> (spec_parse_reference(s) is Ok <==> is_i32_literal(
            strip_chars(split_delim(s)[1], true),
        ) && is_bigint_literal(strip_chars(before_char(split_delim(s)[2], ','), false))),
        split_delim(s).len() > 3 ==> spec_parse_reference(s) == Err::<ValueAddress, ParseError>(
            ParseError::UnsupportedSegmentCount,
        ),
        spec_parse_reference(s) is Err ==> spec_parse_reference(s)->Err_0 == (
        if split_delim(s).len() > 3 {
            ParseError::UnsupportedSegmentCount
        } else {
            ParseError::NumericLiteralMalformed
        }),
{
    crate::text::lemma_split_delim_len(s);
}

/// A dereferenced expression with one parenthesized offset parses for every
/// register token and every in-range signed numeral, sign preserved.
pub proof fn lemma_grammar_deref_one_offset(reg: Seq<char>, lit: Seq<char>, rest: Seq<char>)
    requires
        is_plain_token(reg),
        is_i32_literal(lit),
        is_plain_tail(rest),
    ensures
        spec_parse_dereference(
            deref_start() + reg + seq![' ', '+', ' '] + seq!['('] + lit + seq![')', ','] + rest,
        ) == Ok::<ValueAddress, ParseError>(
            ValueAddress {
                register: reg_of_token(reg),
                offset1: int_literal_val(lit) as i32,
                offset2: 0,
                immediate: None,
                dereference: true,
            },
        ),
{
    let s = deref_start() + reg + seq![' ', '+', ' '] + seq!['('] + lit + seq![')', ','] + rest;
    let a = deref_start() + reg;
    let b = seq!['('] + lit + seq![')', ','] + rest;
    assert(s =~= a + seq![' ', '+', ' '] + b);
    lemma_literal_is_plain(lit);
    assert forall|i: int| 0 <= i < a.len() implies a[i] != ' ' by {
        if 6 <= i {
            assert(a[i] == reg[i - 6]);
        }
    }
    lemma_split_delim_compose(a, b);
    let q = 1 + lit.len() as int;
    assert forall|i: int| 0 <= i < b.len() - 1 && #[trigger] b[i] == ' ' implies b[i + 1] != '+' by {
        if 1 <= i < q {
            assert(b[i] == lit[i - 1]);
        } else if q + 2 <= i {
            assert(b[i] == rest[i - q - 2]);
            if i + 1 < b.len() {
                assert(b[i + 1] == rest[i - q - 1]);
            }
        }
    }
    lemma_no_delim_when_no_space_plus(b);
    lemma_split_delim_none(b);
    let segs = split_delim(s);
    assert(segs =~= seq![a, b]);
    assert forall|j: int| 0 <= j < q + 1 implies b[j] != ',' by {
        if 1 <= j < q {
            assert(b[j] == lit[j - 1]);
        }
    }
    lemma_find_char_is(b, ',', q + 1);
    assert(before_char(b, ',') =~= seq!['('] + lit + seq![')']);
    lemma_paren_sign_round_trip(lit, true);
    assert forall|j: int| 0 <= j < 5 implies a[j] != '(' by {}
    lemma_find_char_is(a, '(', 5);
    assert(a.skip(6) =~= reg);
    lemma_find_char_is(reg, '(', reg.len() as int);
    assert(reg.take(reg.len() as int) =~= reg);
}

/// A bare reference with one parenthesized offset parses for every register
/// token and every in-range signed numeral, sign preserved.
pub proof fn lemma_grammar_ref_one_offset(reg: Seq<char>, lit: Seq<char>, rest: Seq<char>)
    requires
        is_plain_token(reg),
        is_i32_literal(lit),
        is_plain_tail(rest),
    ensures
        spec_parse_reference(
            ref_start() + reg + seq![' ', '+', ' '] + seq!['('] + lit + seq![')', ','] + rest,
        ) == Ok::<ValueAddress, ParseError>(
            ValueAddress {
                register: reg_of_token(reg),
                offset1: int_literal_val(lit) as i32,
                offset2: 0,
                immediate: None,
                dereference: false,
            },
        ),
{
    let s = ref_start() + reg + seq![' ', '+', ' '] + seq!['('] + lit + seq![')', ','] + rest;
    let a = ref_start() + reg;
    let b = seq!['('] + lit + seq![')', ','] + rest;
    assert(s =~= a + seq![' ', '+', ' '] + b);
    lemma_literal_is_plain(lit);
    assert forall|i: int| 0 <= i < a.len() implies a[i] != ' ' by {
        if 5 <= i {
            assert(a[i] == reg[i - 5]);
        }
    }
    lemma_split_delim_compose(a, b);
    let q = 1 + lit.len() as int;
    assert forall|i: int| 0 <= i < b.len() - 1 && #[trigger] b[i] == ' ' implies b[i + 1] != '+' by {
        if 1 <= i < q {
            assert(b[i] == lit[i - 1]);
        } else if q + 2 <= i {
            assert(b[i] == rest[i - q - 2]);
            if i + 1 < b.len() {
                assert(b[i + 1] == rest[i - q - 1]);
            }
        }
    }
    lemma_no_delim_when_no_space_plus(b);
    lemma_split_delim_none(b);
    let segs = split_delim(s);
    assert(segs =~= seq![a, b]);
    assert forall|j: int| 0 <= j < q + 1 implies b[j] != ',' by {
        if 1 <= j < q {
            assert(b[j] == lit[j - 1]);
        }
    }
    lemma_find_char_is(b, ',', q + 1);
    assert(before_char(b, ',') =~= seq!['('] + lit + seq![')']);
    lemma_paren_sign_round_trip(lit, false);
    assert forall|j: int| 0 <= j < 4 implies a[j] != '(' by {}
    lemma_find_char_is(a, '(', 4);
    assert(a.skip(5) =~= reg);
    lemma_find_char_is(reg, '(', reg.len() as int);
    assert(reg.take(reg.len() as int) =~= reg);
}

/// A big-integer numeral is a plain token: digits, signs and underscores
/// are not structural.
pub proof fn lemma_bigint_literal_is_plain(t: Seq<char>)
    requires
        is_bigint_literal(t),
    ensures
        is_plain_token(t),
{
    let u = crate::bigint::strip_minus(t);
    let v = crate::bigint::strip_plus(u);
    let minus_stripped = t.len() > 0 && t[0] == '-' && !(t.len() > 1 && t[1] == '+');
    let plus_stripped = u.len() > 0 && u[0] == '+' && !(u.len() > 1 && u[1] == '+');
    assert forall|i: int| 0 <= i < t.len() implies (#[trigger] t[i] != ' ' && t[i] != ','
        && t[i] != '(' && t[i] != ')' && t[i] != '[' && t[i] != ']') by {
        if minus_stripped && i == 0 {
        } else {
            let iu = if minus_stripped {
                i - 1
            } else {
                i
            };
            assert(u[iu] == t[i]);
            if plus_stripped && iu == 0 {
            } else {
                let iv = if plus_stripped {
                    iu - 1
                } else {
                    iu
                };
                assert(v[iv] == t[i]);
                assert(is_digit_char(v[iv]) || v[iv] == '_');
                assert(' ' as u32 == 32 && ',' as u32 == 44 && '(' as u32 == 40 && ')' as u32
                    == 41 && '[' as u32 == 91 && ']' as u32 == 93);
            }
        }
    }
}

/// A dereferenced expression with two offsets parses for every register
/// token and every pair of in-range signed numerals, signs preserved.
pub proof fn lemma_grammar_deref_two_offsets(
    reg: Seq<char>,
    lit1: Seq<char>,
    lit2: Seq<char>,
    rest: Seq<char>,
)
    requires
        is_plain_token(reg),
        is_i32_literal(lit1),
        is_i32_literal(lit2),
        is_plain_tail(rest),
    ensures
        spec_parse_dereference(
            deref_start() + seq!['['] + reg + seq![' ', '+', ' '] + seq!['('] + lit1 + seq![
                ')',
                ']',
            ] + seq![' ', '+', ' '] + lit2 + seq![','] + rest,
        ) == Ok::<ValueAddress, ParseError>(
            ValueAddress {
                register: reg_of_token(reg),
                offset1: int_literal_val(lit1) as i32,
                offset2: int_literal_val(lit2) as i32,
                immediate: None,
                dereference: true,
            },
        ),
{
    let s = deref_start() + seq!['['] + reg + seq![' ', '+', ' '] + seq!['('] + lit1 + seq![
        ')',
        ']',
    ] + seq![' ', '+', ' '] + lit2 + seq![','] + rest;
    let a = deref_start() + seq!['['] + reg;
    let b1 = seq!['('] + lit1 + seq![')', ']'];
    let b2 = lit2 + seq![','] + rest;
    let b = b1 + seq![' ', '+', ' '] + b2;
    assert(s =~= a + seq![' ', '+', ' '] + b);
    lemma_literal_is_plain(lit1);
    lemma_literal_is_plain(lit2);
    assert forall|i: int| 0 <= i < a.len() implies a[i] != ' ' by {
        if 7 <= i {
            assert(a[i] == reg[i - 7]);
        }
    }
    lemma_split_delim_compose(a, b);
    assert forall|i: int| 0 <= i < b1.len() implies b1[i] != ' ' by {
        if 1 <= i < 1 + lit1.len() {
            assert(b1[i] == lit1[i - 1]);
        }
    }
    lemma_split_delim_compose(b1, b2);
    let q = lit2.len() as int;
    assert forall|i: int| 0 <= i < b2.len() - 1 && #[trigger] b2[i] == ' ' implies b2[i + 1]
        != '+' by {
        if i < q {
            assert(b2[i] == lit2[i]);
        } else if i == q {
            assert(b2[i] == ',');
        } else {
            assert(b2[i] == rest[i - q - 1]);
            if i + 1 < b2.len() {
                assert(b2[i + 1] == rest[i - q]);
            }
        }
    }
    lemma_no_delim_when_no_space_plus(b2);
    lemma_split_delim_none(b2);
    let segs = split_delim(s);
    assert(segs =~= seq![a, b1, b2]);
    // the first offset: stripping the parenthesis and bracket recovers it
    lemma_strip_chars_concat(seq!['('] + lit1 + seq![')'], seq![']'], true);
    lemma_paren_sign_round_trip(lit1, true);
    assert(seq![']'].skip(1) =~= Seq::<char>::empty());
    assert(strip_chars(Seq::<char>::empty(), true) == Seq::<char>::empty());
    assert(strip_chars(seq![']'], true) =~= Seq::<char>::empty());
    assert(b1 =~= (seq!['('] + lit1 + seq![')']) + seq![']']);
    assert(strip_chars(b1, true) =~= lit1);
    // the second offset: the text before the comma is the bare numeral
    assert forall|j: int| 0 <= j < q implies b2[j] != ',' by {
        assert(b2[j] == lit2[j]);
    }
    lemma_find_char_is(b2, ',', q);
    assert(before_char(b2, ',') =~= lit2);
    lemma_strip_preserves_literal(lit2, false);
    // the register: the third bracket-delimited field of the first segment
    lemma_find_char_is(a, '[', 0);
    let a1 = a.skip(1);
    assert(a1 =~= seq!['c', 'a', 's', 't', '(', '['] + reg);
    assert forall|j: int| 0 <= j < 5 implies a1[j] != '[' by {}
    lemma_find_char_is(a1, '[', 5);
    assert(a1.skip(6) =~= reg);
    lemma_find_char_is(reg, '[', reg.len() as int);
    assert(reg.take(reg.len() as int) =~= reg);
}

/// A bare reference with one offset and an immediate parses for every
/// register token, every in-range signed numeral, and every big-integer
/// numeral, signs preserved.
pub proof fn lemma_grammar_ref_two_offsets(
    reg: Seq<char>,
    lit1: Seq<char>,
    imm: Seq<char>,
    rest: Seq<char>,
)
    requires
        is_plain_token(reg),
        is_i32_literal(lit1),
        is_bigint_literal(imm),
        is_plain_tail(rest),
    ensures
        spec_parse_reference(
            ref_start() + seq!['['] + reg + seq![' ', '+', ' '] + seq!['('] + lit1 + seq![
                ')',
                ']',
            ] + seq![' ', '+', ' '] + imm + seq![','] + rest,
        ) == Ok::<ValueAddress, ParseError>(
            ValueAddress {
                register: reg_of_token(reg),
                offset1: int_literal_val(lit1) as i32,
                offset2: 0,
                immediate: Some(crate::bigint::bigint_of_decimal(imm)),
                dereference: false,
            },
        ),
{
    let s = ref_start() + seq!['['] + reg + seq![' ', '+', ' '] + seq!['('] + lit1 + seq![
        ')',
        ']',
    ] + seq![' ', '+', ' '] + imm + seq![','] + rest;
    let a = ref_start() + seq!['['] + reg;
    let b1 = seq!['('] + lit1 + seq![')', ']'];
    let b2 = imm + seq![','] + rest;
    let b = b1 + seq![' ', '+', ' '] + b2;
    assert(s =~= a + seq![' ', '+', ' '] + b);
    lemma_literal_is_plain(lit1);
    lemma_bigint_literal_is_plain(imm);
    assert forall|i: int| 0 <= i < a.len() implies a[i] != ' ' by {
        if 6 <= i {
            assert(a[i] == reg[i - 6]);
        }
    }
    lemma_split_delim_compose(a, b);
    assert forall|i: int| 0 <= i < b1.len() implies b1[i] != ' ' by {
        if 1 <= i < 1 + lit1.len() {
            assert(b1[i] == lit1[i - 1]);
        }
    }
    lemma_split_delim_compose(b1, b2);
    let q = imm.len() as int;
    assert forall|i: int| 0 <= i < b2.len() - 1 && #[trigger] b2[i] == ' ' implies b2[i + 1]
        != '+' by {
        if i < q {
            assert(b2[i] == imm[i]);
        } else if i == q {
            assert(b2[i] == ',');
        } else {
            assert(b2[i] == rest[i - q - 1]);
            if i + 1 < b2.len() {
                assert(b2[i + 1] == rest[i - q]);
            }
        }
    }
    lemma_no_delim_when_no_space_plus(b2);
    lemma_split_delim_none(b2);
    let segs = split_delim(s);
    assert(segs =~= seq![a, b1, b2]);
    // the offset: stripping the parenthesis and bracket recovers it
    lemma_strip_chars_concat(seq!['('] + lit1 + seq![')'], seq![']'], true);
    lemma_paren_sign_round_trip(lit1, true);
    assert(seq![']'].skip(1) =~= Seq::<char>::empty());
    assert(strip_chars(Seq::<char>::empty(), true) == Seq::<char>::empty());
    assert(strip_chars(seq![']'], true) =~= Seq::<char>::empty());
    assert(b1 =~= (seq!['('] + lit1 + seq![')']) + seq![']']);
    assert(strip_chars(b1, true) =~= lit1);
    // the immediate: the text before the comma is the bare numeral
    assert forall|j: int| 0 <= j < q implies b2[j] != ',' by {
        assert(b2[j] == imm[j]);
    }
    lemma_find_char_is(b2, ',', q);
    assert(before_char(b2, ',') =~= imm);
    assert forall|j: int| 0 <= j < imm.len() implies !is_strip_char(imm[j], false) by {}
    lemma_strip_chars_id(imm, false);
    // the register: the second bracket-delimited field of the first segment
    assert forall|j: int| 0 <= j < 5 implies a[j] != '[' by {}
    lemma_find_char_is(a, '[', 5);
    assert(a.skip(6) =~= reg);
    lemma_find_char_is(reg, '[', reg.len() as int);
    assert(reg.take(reg.len() as int) =~= reg);
}

/// A second offset and an immediate are mutually exclusive, whatever the
/// input: a dereferenced expression never carries an immediate, a bare
/// reference never a meaningful second offset, and a three-segment bare
/// reference always carries an immediate.
pub proof fn lemma_offset2_immediate_exclusive(s: Seq<char>)
    ensures
        spec_parse_dereference(s) matches Ok(v) ==> v.immediate is None && v.dereference,
        spec_parse_reference(s) matches Ok(v) ==> v.offset2 == 0 && !v.dereference,
        split_delim(s).len() == 3 ==> (spec_parse_reference(s) matches Ok(v)
            ==> v.immediate is Some),
        split_delim(s).len() < 3 ==> (spec_parse_reference(s) matches Ok(v)
            ==> v.immediate is None),
{
}

/// Every character of a signed numeral survives stripping: digits and sign
/// characters are not structural characters.
pub proof fn lemma_strip_preserves_literal(t: Seq<char>, bracket: bool)
    requires
        is_int_literal(t),
    ensures
        strip_chars(t, bracket) == t,
{
    assert forall|i: int| 0 <= i < t.len() implies !is_strip_char(t[i], bracket) by {
        let body = literal_body(t);
        if t.len() > 0 && (t[0] == '-' || t[0] == '+') {
            if i == 0 {
                assert(t[0] as u32 == 45 || t[0] as u32 == 43);
            } else {
                assert(body[i - 1] == t[i]);
                assert(is_digit_char(t[i]));
            }
        } else {
            assert(body[i] == t[i]);
            assert(is_digit_char(t[i]));
        }
        assert('(' as u32 == 40 && ')' as u32 == 41 && ']' as u32 == 93);
    }
    lemma_strip_chars_id(t, bracket);
}

/// A parenthesized signed numeral round-trips through stripping with its
/// sign and value intact.
pub proof fn lemma_paren_sign_round_trip(t: Seq<char>, bracket: bool)
    requires
        is_int_literal(t),
    ensures
        strip_chars(seq!['('] + t + seq![')'], bracket) == t,
        int_literal_val(strip_chars(seq!['('] + t + seq![')'], bracket)) == int_literal_val(t),
{
    let open = seq!['('];
    let close = seq![')'];
    lemma_strip_chars_concat(open + t, close, bracket);
    lemma_strip_chars_concat(open, t, bracket);
    assert(open.skip(1) =~= Seq::<char>::empty());
    assert(close.skip(1) =~= Seq::<char>::empty());
    assert(strip_chars(Seq::<char>::empty(), bracket) =~= Seq::<char>::empty());
    assert(strip_chars(open, bracket) =~= Seq::<char>::empty());
    assert(strip_chars(close, bracket) =~= Seq::<char>::empty());
    lemma_strip_preserves_literal(t, bracket);
    assert(strip_chars((open + t) + close, bracket) =~= t);
    assert(open + t + close =~= (open + t) + close);
}

} // verus!
