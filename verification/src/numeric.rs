//! Signed decimal literals: their grammar, their mathematical value, and a
//! verified parser into `i32`.

use vstd::prelude::*;

verus! {

/// True of the ten ASCII decimal digits.
pub open spec fn is_digit_char(c: char) -> bool {
    48 <= c as u32 && c as u32 <= 57
}

/// Numeric value of one decimal digit.
pub open spec fn digit_val(c: char) -> int {
    c as u32 - 48
}

/// True when every character of `s` is a decimal digit.
pub open spec fn is_digits(s: Seq<char>) -> bool {
    forall|i: int| 0 <= i < s.len() ==> is_digit_char(s[i])
}

/// Value of a digit string read in base ten (zero when empty).
pub open spec fn digits_val(s: Seq<char>) -> int
    decreases s.len(),
{
    if s.len() == 0 {
        0
    } else {
        digits_val(s.drop_last()) * 10 + digit_val(s.last())
    }
}

pub open spec fn pow10(k: nat) -> int
    decreases k,
{
    if k == 0 {
        1
    } else {
        10 * pow10((k - 1) as nat)
    }
}

/// True when `s` starts with a sign character.
pub open spec fn has_sign(s: Seq<char>) -> bool {
    s.len() > 0 && (s[0] == '-' || s[0] == '+')
}

/// `s` without its optional leading sign.
pub open spec fn literal_body(s: Seq<char>) -> Seq<char> {
    if has_sign(s) {
        s.skip(1)
    } else {
        s
    }
}

/// True of an optionally signed, non-empty decimal numeral.
pub open spec fn is_int_literal(s: Seq<char>) -> bool {
    literal_body(s).len() > 0 && is_digits(literal_body(s))
}

/// Value of an optionally signed decimal numeral.
pub open spec fn int_literal_val(s: Seq<char>) -> int {
    if s.len() > 0 && s[0] == '-' {
        -digits_val(s.skip(1))
    } else {
        digits_val(literal_body(s))
    }
}

/// True of a signed decimal numeral whose value fits in an `i32`.
pub open spec fn is_i32_literal(s: Seq<char>) -> bool {
    is_int_literal(s) && i32::MIN <= int_literal_val(s) <= i32::MAX
}

pub proof fn lemma_pow10_pos(k: nat)
    ensures
        pow10(k) >= 1,
    decreases k,
{
    if k > 0 {
        lemma_pow10_pos((k - 1) as nat);
    }
}

pub proof fn lemma_pow10_monotonic(a: nat, b: nat)
    requires
        a <= b,
    ensures
        pow10(a) <= pow10(b),
    decreases b,
{
    if a < b {
        lemma_pow10_monotonic(a, (b - 1) as nat);
        lemma_pow10_pos((b - 1) as nat);
    }
}

/// A digit string's value is non-negative and below ten to its length; with
/// a non-zero leading digit it reaches ten to the length less one.
pub proof fn lemma_digits_val_bounds(s: Seq<char>)
    requires
        is_digits(s),
    ensures
        0 <= digits_val(s) < pow10(s.len()),
        s.len() > 0 && digit_val(s[0]) >= 1 ==> digits_val(s) >= pow10((s.len() - 1) as nat),
    decreases s.len(),
{
    if s.len() > 0 {
        let pre = s.drop_last();
        assert(is_digits(pre));
        lemma_digits_val_bounds(pre);
        assert(is_digit_char(s.last()));
        assert(0 <= digit_val(s.last()) <= 9);
        if s.len() > 1 && digit_val(s[0]) >= 1 {
            assert(pre[0] == s[0]);
        }
    }
}

/// A leading zero does not change a digit string's value.
pub proof fn lemma_digits_val_leading_zero(s: Seq<char>)
    requires
        s.len() > 0,
        digit_val(s[0]) == 0,
    ensures
        digits_val(s) == digits_val(s.skip(1)),
    decreases s.len(),
{
    if s.len() == 1 {
        assert(s.skip(1) =~= Seq::<char>::empty());
        assert(s.drop_last() =~= Seq::<char>::empty());
    } else {
        let pre = s.drop_last();
        lemma_digits_val_leading_zero(pre);
        assert(pre.skip(1) =~= s.skip(1).drop_last());
        assert(s.skip(1).last() == s.last());
    }
}

/// Leading zeros do not change a digit string's value.
pub proof fn lemma_digits_val_leading_zeros(s: Seq<char>, k: int)
    requires
        0 <= k <= s.len(),
        forall|j: int| 0 <= j < k ==> digit_val(s[j]) == 0,
    ensures
        digits_val(s) == digits_val(s.skip(k)),
    decreases k,
{
    if k == 0 {
        assert(s.skip(0) =~= s);
    } else {
        lemma_digits_val_leading_zero(s);
        assert(forall|j: int| 0 <= j < k - 1 ==> s.skip(1)[j] == s[j + 1]);
        assert(digit_val(s[0]) == 0);
        lemma_digits_val_leading_zeros(s.skip(1), k - 1);
        assert(s.skip(1).skip(k - 1) =~= s.skip(k));
    }
}

/// Parses an optionally signed decimal numeral into an `i32`, reporting
/// failure both on malformed text and on a value outside the `i32` range.
#[verifier::loop_isolation(false)]
#[verifier::rlimit(60)]
pub fn parse_i32(cs: &Vec<char>) -> (r: Option<i32>)
    ensures
        r is Some <==> is_i32_literal(cs@),
        r matches Some(v) ==> v as int == int_literal_val(cs@),
{
    let n = cs.len();
    let mut idx: usize = 0;
    let mut neg = false;
    if n > 0 {
        let c0 = cs[0];
        if c0 == '-' {
            neg = true;
            idx = 1;
        } else if c0 == '+' {
            idx = 1;
        }
    }
    let ghost body = cs@.skip(idx as int);
    proof {
        assert(body =~= literal_body(cs@));
        assert(neg <==> (cs@.len() > 0 && cs@[0] == '-'));
    }
    if idx >= n {
        // no digits at all
        return None;
    }
    // every remaining character must be a digit
    let mut j: usize = idx;
    while j < n
        invariant
            idx <= j <= n,
            n == cs@.len(),
            forall|t: int| idx <= t < j ==> is_digit_char(cs@[t]),
        decreases n - j,
    {
        let u = cs[j] as u32;
        if u < 48 || u > 57 {
            proof {
                assert(!is_digit_char(cs@[j as int]));
                assert(body[j - idx] == cs@[j as int]);
            }
            return None;
        }
        j += 1;
    }
    proof {
        assert forall|t: int| 0 <= t < body.len() implies is_digit_char(body[t]) by {
            assert(body[t] == cs@[t + idx]);
        }
        assert(is_int_literal(cs@));
    }
    // skip leading zeros so that the significant length bounds the value
    let mut z: usize = idx;
    while z < n && cs[z] as u32 == 48
        invariant
            idx <= z <= n,
            n == cs@.len(),
            forall|t: int| idx <= t < z ==> digit_val(cs@[t]) == 0,
        decreases n - z,
    {
        z += 1;
    }
    let ghost sig = cs@.skip(z as int);
    proof {
        assert(forall|j2: int| 0 <= j2 < z - idx ==> digit_val(body[j2]) == 0);
        lemma_digits_val_leading_zeros(body, z - idx);
        assert(body.skip(z - idx) =~= sig);
        assert forall|t: int| 0 <= t < sig.len() implies is_digit_char(sig[t]) by {
            assert(sig[t] == cs@[t + z]);
        }
        lemma_digits_val_bounds(sig);
        reveal_with_fuel(pow10, 12);
        assert(pow10(10) == 10_000_000_000);
    }
    if n - z > 10 {
        // at least eleven significant digits: out of range either way
        proof {
            assert(sig[0] == cs@[z as int]);
            assert(digit_val(sig[0]) >= 1);
            lemma_pow10_monotonic(10, (sig.len() - 1) as nat);
            assert(digits_val(sig) >= pow10(10));
        }
        return None;
    }
    let mut acc: i64 = 0;
    let mut k: usize = z;
    while k < n
        invariant
            z <= k <= n,
            n == cs@.len(),
            n - z <= 10,
            sig == cs@.skip(z as int),
            forall|t: int| z <= t < n ==> is_digit_char(cs@[t]),
            acc == digits_val(cs@.subrange(z as int, k as int)),
            0 <= acc < pow10((k - z) as nat),
        decreases n - k,
    {
        proof {
            lemma_pow10_monotonic((k - z) as nat, 10);
            reveal_with_fuel(pow10, 12);
            assert(pow10(10) == 10_000_000_000);
            let piece = cs@.subrange(z as int, k + 1);
            assert(piece.drop_last() =~= cs@.subrange(z as int, k as int));
            assert(piece.last() == cs@[k as int]);
        }
        let d = cs[k] as u32;
        acc = acc * 10 + (d - 48) as i64;
        k += 1;
    }
    proof {
        assert(cs@.subrange(z as int, n as int) =~= sig);
        assert(digits_val(body) == digits_val(sig));
    }
    if neg {
        if acc > 2147483648i64 {
            return None;
        }
        let v: i32 = (-acc) as i32;
        proof {
            assert(int_literal_val(cs@) == -digits_val(body));
        }
        Some(v)
    } else {
        if acc > 2147483647i64 {
            return None;
        }
        let v: i32 = acc as i32;
        Some(v)
    }
}

} // verus!
