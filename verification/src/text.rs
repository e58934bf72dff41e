//! Character-level text operations the address grammar is built from:
//! splitting on the offset delimiter, locating structural characters, and
//! stripping parenthesis characters.

use vstd::prelude::*;
use vstd::string::StrSliceExecFns;

verus! {

/// True of the three-character offset delimiter (space, plus, space)
/// starting at position `i` of `s`.
pub open spec fn is_delim_at(s: Seq<char>, i: int) -> bool {
    &&& 0 <= i
    &&& i + 3 <= s.len()
    &&& s[i] == ' '
    &&& s[i + 1] == '+'
    &&& s[i + 2] == ' '
}

/// The segments of `s` between non-overlapping, leftmost-first occurrences
/// of the offset delimiter. Always yields at least one segment.
pub open spec fn split_delim(s: Seq<char>) -> Seq<Seq<char>>
    decreases s.len(),
{
    if s.len() == 0 {
        seq![s]
    } else if is_delim_at(s, 0) {
        seq![Seq::<char>::empty()] + split_delim(s.skip(3))
    } else {
        let rest = split_delim(s.skip(1));
        seq![seq![s[0]] + rest[0]] + rest.skip(1)
    }
}

/// A split always yields at least one segment.
pub proof fn lemma_split_delim_len(s: Seq<char>)
    ensures
        split_delim(s).len() >= 1,
    decreases s.len(),
{
    if s.len() == 0 {
    } else if is_delim_at(s, 0) {
        lemma_split_delim_len(s.skip(3));
    } else {
        lemma_split_delim_len(s.skip(1));
    }
}

/// Delimiter occurrences are unaffected by dropping a prefix.
pub proof fn lemma_delim_shift(s: Seq<char>, k: int, j: int)
    requires
        0 <= k <= s.len(),
    ensures
        j >= 0 ==> is_delim_at(s.skip(k), j) == is_delim_at(s, j + k),
        j < 0 ==> !is_delim_at(s.skip(k), j),
{
    if 0 <= j && j + 3 <= s.skip(k).len() {
        assert(s.skip(k)[j] == s[j + k]);
        assert(s.skip(k)[j + 1] == s[j + k + 1]);
        assert(s.skip(k)[j + 2] == s[j + k + 2]);
    }
}

/// A sequence without any delimiter occurrence is a single segment.
pub proof fn lemma_split_delim_none(s: Seq<char>)
    requires
        forall|j: int| !is_delim_at(s, j),
    ensures
        split_delim(s) == seq![s],
    decreases s.len(),
{
    if s.len() == 0 {
    } else {
        assert(!is_delim_at(s, 0));
        assert forall|j: int| !is_delim_at(s.skip(1), j) by {
            lemma_delim_shift(s, 1, j);
        }
        lemma_split_delim_none(s.skip(1));
        let rest = split_delim(s.skip(1));
        assert(rest[0] == s.skip(1));
        assert(seq![s[0]] + s.skip(1) =~= s);
        assert(rest.skip(1) =~= Seq::<Seq<char>>::empty());
        assert(seq![seq![s[0]] + rest[0]] + rest.skip(1) =~= seq![s]);
    }
}

/// Splitting at the leftmost delimiter occurrence: everything before it is
/// the first segment, and the rest splits independently.
pub proof fn lemma_split_delim_first(s: Seq<char>, m: int)
    requires
        is_delim_at(s, m),
        forall|j: int| 0 <= j < m ==> !is_delim_at(s, j),
    ensures
        split_delim(s) == seq![s.subrange(0, m)] + split_delim(s.skip(m + 3)),
    decreases m,
{
    if m == 0 {
        assert(s.subrange(0, 0) =~= Seq::<char>::empty());
        assert(seq![s.subrange(0, 0)] + split_delim(s.skip(3)) =~= seq![
            Seq::<char>::empty(),
        ] + split_delim(s.skip(3)));
    } else {
        assert(!is_delim_at(s, 0));
        assert(s.len() > 0);
        let t = s.skip(1);
        assert(is_delim_at(t, m - 1)) by {
            lemma_delim_shift(s, 1, m - 1);
        }
        assert forall|j: int| 0 <= j < m - 1 implies !is_delim_at(t, j) by {
            lemma_delim_shift(s, 1, j);
        }
        lemma_split_delim_first(t, m - 1);
        let rest = split_delim(t);
        assert(rest == seq![t.subrange(0, m - 1)] + split_delim(t.skip(m + 2)));
        assert(rest[0] == t.subrange(0, m - 1));
        assert(seq![s[0]] + t.subrange(0, m - 1) =~= s.subrange(0, m));
        assert(rest.skip(1) =~= split_delim(t.skip(m + 2)));
        assert(t.skip(m + 2) =~= s.skip(m + 3));
        assert(seq![seq![s[0]] + rest[0]] + rest.skip(1) =~= seq![s.subrange(0, m)]
            + split_delim(s.skip(m + 3)));
    }
}

/// Position of the first occurrence of `d` in `s`, or `s.len()` if absent.
pub open spec fn find_char(s: Seq<char>, d: char) -> nat
    decreases s.len(),
{
    if s.len() == 0 {
        0
    } else if s[0] == d {
        0
    } else {
        1 + find_char(s.skip(1), d)
    }
}

pub proof fn lemma_find_char(s: Seq<char>, d: char)
    ensures
        find_char(s, d) <= s.len(),
        forall|j: int| 0 <= j < find_char(s, d) ==> s[j] != d,
        find_char(s, d) < s.len() ==> s[find_char(s, d) as int] == d,
    decreases s.len(),
{
    if s.len() == 0 {
    } else if s[0] == d {
    } else {
        lemma_find_char(s.skip(1), d);
        assert forall|j: int| 0 <= j < find_char(s, d) implies s[j] != d by {
            if j > 0 {
                assert(s.skip(1)[j - 1] == s[j]);
            }
        }
        if find_char(s, d) < s.len() {
            assert(s.skip(1)[find_char(s.skip(1), d) as int] == s[find_char(s, d) as int]);
        }
    }
}

/// The first occurrence is the only position satisfying "nothing equal to
/// `d` stands before it".
pub proof fn lemma_find_char_is(s: Seq<char>, d: char, p: int)
    requires
        0 <= p <= s.len(),
        forall|j: int| 0 <= j < p ==> s[j] != d,
        p < s.len() ==> s[p] == d,
    ensures
        find_char(s, d) == p,
{
    lemma_find_char(s, d);
    let f = find_char(s, d) as int;
    if f < p {
        assert(s[f] != d);
    } else if p < f {
        assert(s[p] != d);
    }
}

/// The prefix of `s` before the first occurrence of `d` (all of `s` when
/// `d` does not occur): the first piece of a split on `d`.
pub open spec fn before_char(s: Seq<char>, d: char) -> Seq<char> {
    s.take(find_char(s, d) as int)
}

/// What follows the first occurrence of `d` in `s`, or `None` when `d`
/// does not occur.
pub open spec fn after_first(s: Seq<char>, d: char) -> Option<Seq<char>> {
    if find_char(s, d) < s.len() {
        Some(s.skip(find_char(s, d) as int + 1))
    } else {
        None
    }
}

/// The text between the first and second occurrences of `d` (up to the end
/// when `d` occurs once): the second piece of a split on `d`.
pub open spec fn second_field(s: Seq<char>, d: char) -> Option<Seq<char>> {
    match after_first(s, d) {
        Some(r) => Some(before_char(r, d)),
        None => None,
    }
}

/// The text between the second and third occurrences of `d`: the third
/// piece of a split on `d`.
pub open spec fn third_field(s: Seq<char>, d: char) -> Option<Seq<char>> {
    match after_first(s, d) {
        Some(r) => second_field(r, d),
        None => None,
    }
}

/// A sequence in which no space is followed by a plus sign holds no
/// delimiter at all.
pub proof fn lemma_no_delim_when_no_space_plus(s: Seq<char>)
    requires
        forall|i: int| 0 <= i < s.len() - 1 && #[trigger] s[i] == ' ' ==> s[i + 1] != '+',
    ensures
        forall|j: int| !is_delim_at(s, j),
{
    assert forall|j: int| !is_delim_at(s, j) by {
        if 0 <= j && j + 3 <= s.len() && s[j] == ' ' {
            assert(s[j + 1] != '+');
        }
    }
}

/// Splitting a text formed of a delimiter-free segment, one delimiter, and a
/// remainder: the segment comes off whole.
pub proof fn lemma_split_delim_compose(a: Seq<char>, b: Seq<char>)
    requires
        forall|i: int| 0 <= i < a.len() ==> a[i] != ' ',
    ensures
        split_delim(a + seq![' ', '+', ' '] + b) == seq![a] + split_delim(b),
{
    let s = a + seq![' ', '+', ' '] + b;
    let m = a.len() as int;
    assert(is_delim_at(s, m));
    assert forall|j: int| 0 <= j < m implies !is_delim_at(s, j) by {
        assert(s[j] == a[j]);
    }
    lemma_split_delim_first(s, m);
    assert(s.subrange(0, m) =~= a);
    assert(s.skip(m + 3) =~= b);
}

/// True of the structural characters the numeric extraction removes:
/// parentheses always, and the closing bracket when `bracket` is set.
pub open spec fn is_strip_char(c: char, bracket: bool) -> bool {
    c == '(' || c == ')' || (bracket && c == ']')
}

/// `s` with every structural character removed.
pub open spec fn strip_chars(s: Seq<char>, bracket: bool) -> Seq<char>
    decreases s.len(),
{
    if s.len() == 0 {
        s
    } else if is_strip_char(s[0], bracket) {
        strip_chars(s.skip(1), bracket)
    } else {
        seq![s[0]] + strip_chars(s.skip(1), bracket)
    }
}

/// Stripping distributes over concatenation.
pub proof fn lemma_strip_chars_concat(a: Seq<char>, b: Seq<char>, bracket: bool)
    ensures
        strip_chars(a + b, bracket) == strip_chars(a, bracket) + strip_chars(b, bracket),
    decreases a.len(),
{
    if a.len() == 0 {
        assert(a + b =~= b);
        assert(strip_chars(a, bracket) + strip_chars(b, bracket) =~= strip_chars(b, bracket));
    } else {
        assert((a + b)[0] == a[0]);
        assert((a + b).skip(1) =~= a.skip(1) + b);
        lemma_strip_chars_concat(a.skip(1), b, bracket);
        if !is_strip_char(a[0], bracket) {
            assert(seq![a[0]] + (strip_chars(a.skip(1), bracket) + strip_chars(b, bracket)) =~= (
            seq![a[0]] + strip_chars(a.skip(1), bracket)) + strip_chars(b, bracket));
        }
    }
}

/// Stripping leaves a sequence without structural characters unchanged.
pub proof fn lemma_strip_chars_id(s: Seq<char>, bracket: bool)
    requires
        forall|i: int| 0 <= i < s.len() ==> !is_strip_char(s[i], bracket),
    ensures
        strip_chars(s, bracket) == s,
    decreases s.len(),
{
    if s.len() > 0 {
        assert(forall|i: int| 0 <= i < s.skip(1).len() ==> s.skip(1)[i] == s[i + 1]);
        lemma_strip_chars_id(s.skip(1), bracket);
        assert(seq![s[0]] + s.skip(1) =~= s);
    }
}

/// The characters of `s`, as a vector.
pub fn chars_of(s: &str) -> (r: Vec<char>)
    ensures
        r@ == s@,
{
    let n = s.unicode_len();
    let mut r: Vec<char> = Vec::new();
    let mut i: usize = 0;
    while i < n
        invariant
            i <= n,
            n == s@.len(),
            r@ == s@.take(i as int),
        decreases n - i,
    {
        let c = s.get_char(i);
        r.push(c);
        proof {
            assert(s@.take(i + 1) =~= s@.take(i as int).push(s@[i as int]));
        }
        i += 1;
    }
    proof {
        assert(s@.take(n as int) =~= s@);
    }
    r
}

/// Splits `s` on each occurrence of the offset delimiter (space, plus,
/// space), scanning left to right.
pub fn split_delim_str<'a>(s: &'a str) -> (r: Vec<&'a str>)
    ensures
        r.deep_view() == split_delim(s@),
        r@.len() >= 1,
{
    let n = s.unicode_len();
    let mut toks: Vec<&'a str> = Vec::new();
    let mut start: usize = 0;
    let mut i: usize = 0;
    proof {
        assert(s@.skip(0) =~= s@);
        assert(toks.deep_view() + split_delim(s@) =~= split_delim(s@));
    }
    while n - i > 2
        invariant
            start <= i <= n,
            n == s@.len(),
            split_delim(s@) == toks.deep_view() + split_delim(s@.skip(start as int)),
            forall|j: int| start <= j < i ==> !is_delim_at(s@, j),
        decreases n - i,
    {
        let c0 = s.get_char(i);
        let c1 = s.get_char(i + 1);
        let c2 = s.get_char(i + 2);
        if c0 == ' ' && c1 == '+' && c2 == ' ' {
            let tok = s.substring_char(start, i);
            let ghost prev = toks.deep_view();
            proof {
                let t = s@.skip(start as int);
                let m = i - start;
                lemma_delim_shift(s@, start as int, m);
                assert(is_delim_at(t, m));
                assert forall|j: int| 0 <= j < m implies !is_delim_at(t, j) by {
                    lemma_delim_shift(s@, start as int, j);
                }
                lemma_split_delim_first(t, m);
                assert(t.subrange(0, m) =~= s@.subrange(start as int, i as int));
                assert(t.skip(m + 3) =~= s@.skip(i + 3));
                assert(prev + (seq![tok@] + split_delim(s@.skip(i + 3))) =~= prev.push(tok@)
                    + split_delim(s@.skip(i + 3)));
            }
            toks.push(tok);
            proof {
                assert(toks.deep_view() =~= prev.push(tok@));
            }
            i += 3;
            start = i;
        } else {
            proof {
                assert(!is_delim_at(s@, i as int));
            }
            i += 1;
        }
    }
    let tail = s.substring_char(start, n);
    proof {
        let t = s@.skip(start as int);
        assert forall|j: int| !is_delim_at(t, j) by {
            lemma_delim_shift(s@, start as int, j);
            if start <= j + start < i {
            }
        }
        lemma_split_delim_none(t);
        assert(t =~= s@.subrange(start as int, n as int));
    }
    let ghost prev = toks.deep_view();
    toks.push(tail);
    proof {
        assert(toks.deep_view() =~= prev.push(tail@));
        assert(prev.push(tail@) =~= prev + seq![tail@]);
        assert(toks.deep_view() =~= split_delim(s@));
    }
    toks
}

/// A copy of `cs[from..to]`.
pub fn copy_range(cs: &Vec<char>, from: usize, to: usize) -> (r: Vec<char>)
    requires
        from <= to <= cs@.len(),
    ensures
        r@ == cs@.subrange(from as int, to as int),
{
    let mut r: Vec<char> = Vec::new();
    let mut i: usize = from;
    while i < to
        invariant
            from <= i <= to <= cs@.len(),
            r@ == cs@.subrange(from as int, i as int),
        decreases to - i,
    {
        r.push(cs[i]);
        proof {
            assert(cs@.subrange(from as int, i + 1) =~= cs@.subrange(from as int, i as int).push(
                cs@[i as int],
            ));
        }
        i += 1;
    }
    r
}

/// Position of the first occurrence of `d` in `cs`, or its length.
pub fn find_char_vec(cs: &Vec<char>, d: char) -> (r: usize)
    ensures
        r as nat == find_char(cs@, d),
{
    proof {
        lemma_find_char(cs@, d);
    }
    let n = cs.len();
    let mut i: usize = 0;
    while i < n
        invariant
            i <= n,
            n == cs@.len(),
            forall|j: int| 0 <= j < i ==> cs@[j] != d,
        decreases n - i,
    {
        if cs[i] == d {
            proof {
                lemma_find_char(cs@, d);
                let f = find_char(cs@, d) as int;
                if f < i {
                    assert(cs@[f] != d);
                } else if f > i {
                    assert(cs@[i as int] != d);
                }
            }
            return i;
        }
        i += 1;
    }
    proof {
        let f = find_char(cs@, d) as int;
        if f < n {
            assert(cs@[f] != d);
        }
    }
    n
}

/// The prefix of `cs` before the first occurrence of `d`.
pub fn before_char_vec(cs: &Vec<char>, d: char) -> (r: Vec<char>)
    ensures
        r@ == before_char(cs@, d),
{
    proof {
        lemma_find_char(cs@, d);
    }
    let f = find_char_vec(cs, d);
    copy_range(cs, 0, f)
}

/// What follows the first occurrence of `d` in `cs`, if it occurs.
pub fn after_first_vec(cs: &Vec<char>, d: char) -> (r: Option<Vec<char>>)
    ensures
        after_first(cs@, d) is Some <==> r is Some,
        r matches Some(v) ==> Some(v@) == after_first(cs@, d),
{
    proof {
        lemma_find_char(cs@, d);
    }
    let f = find_char_vec(cs, d);
    if f < cs.len() {
        Some(copy_range(cs, f + 1, cs.len()))
    } else {
        None
    }
}

/// The text between the first and second occurrences of `d` in `cs`.
pub fn second_field_vec(cs: &Vec<char>, d: char) -> (r: Option<Vec<char>>)
    ensures
        second_field(cs@, d) is Some <==> r is Some,
        r matches Some(v) ==> Some(v@) == second_field(cs@, d),
{
    match after_first_vec(cs, d) {
        Some(rest) => Some(before_char_vec(&rest, d)),
        None => None,
    }
}

/// The text between the second and third occurrences of `d` in `cs`.
pub fn third_field_vec(cs: &Vec<char>, d: char) -> (r: Option<Vec<char>>)
    ensures
        third_field(cs@, d) is Some <==> r is Some,
        r matches Some(v) ==> Some(v@) == third_field(cs@, d),
{
    match after_first_vec(cs, d) {
        Some(rest) => second_field_vec(&rest, d),
        None => None,
    }
}

/// `cs` with every structural character removed.
pub fn strip_chars_vec(cs: &Vec<char>, bracket: bool) -> (r: Vec<char>)
    ensures
        r@ == strip_chars(cs@, bracket),
{
    let n = cs.len();
    let mut r: Vec<char> = Vec::new();
    let mut i: usize = 0;
    proof {
        assert(cs@.take(0) =~= Seq::<char>::empty());
    }
    while i < n
        invariant
            i <= n,
            n == cs@.len(),
            r@ == strip_chars(cs@.take(i as int), bracket),
        decreases n - i,
    {
        let c = cs[i];
        let keep = !(c == '(' || c == ')' || (bracket && c == ']'));
        proof {
            let pre = cs@.take(i as int);
            let one = seq![cs@[i as int]];
            assert(cs@.take(i + 1) =~= pre + one);
            lemma_strip_chars_concat(pre, one, bracket);
            assert(one.skip(1) =~= Seq::<char>::empty());
            assert(strip_chars(Seq::<char>::empty(), bracket) == Seq::<char>::empty());
            if keep {
                assert(strip_chars(one, bracket) =~= seq![one[0]] + Seq::<char>::empty());
                assert(strip_chars(one, bracket) =~= one);
                assert(r@.push(cs@[i as int]) =~= strip_chars(pre, bracket) + one);
            } else {
                assert(strip_chars(one, bracket) =~= Seq::<char>::empty());
                assert(strip_chars(pre, bracket) + strip_chars(one, bracket) =~= r@);
            }
        }
        if keep {
            r.push(c);
        }
        i += 1;
    }
    proof {
        assert(cs@.take(n as int) =~= cs@);
    }
    r
}

} // verus!
