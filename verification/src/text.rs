//! Character-level helpers shared by the plate normalizer, the record codec
//! and the session machine: conversions between strings and character
//! vectors, character classes, and verified scanning over character
//! sequences (line splitting, whitespace skipping, substring search,
//! decimal digits).
use vstd::prelude::*;
use vstd::string::StrSliceExecFns;

verus! {

// ---------------------------------------------------------------------------
// Trusted views of the standard library's Unicode tables.
// ---------------------------------------------------------------------------
/// The sequence of characters that `char::to_uppercase` yields for `c`.
pub uninterp spec fn upper_chars(c: char) -> Seq<char>;

/// Whether `char::is_alphanumeric` holds of `c`.
pub uninterp spec fn alnum(c: char) -> bool;

/// `c` is its own uppercase mapping.
pub open spec fn upper_fixed(c: char) -> bool {
    upper_chars(c) == seq![c]
}

/// Facts about the Unicode uppercase mapping that the normalizer relies on:
/// every character the mapping yields is itself uppercase-fixed, every
/// mapping yields at least one character, and the ASCII capital letters map
/// to themselves.
pub open spec fn upper_mapping_facts() -> bool {
    &&& forall|c: char, i: int|
        0 <= i < upper_chars(c).len() ==> upper_fixed(#[trigger] upper_chars(c)[i])
    &&& forall|c: char| 1 <= #[trigger] upper_chars(c).len()
    &&& forall|c: char| 'A' <= c <= 'Z' ==> #[trigger] upper_fixed(c)
}

/// `r` came out of the uppercase mapping, and the mapping obeys
/// `upper_mapping_facts`.
pub open spec fn upper_result_facts(r: Seq<char>) -> bool {
    1 <= r.len() && (forall|i: int| 0 <= i < r.len() ==> upper_fixed(#[trigger] r[i]))
        && upper_mapping_facts()
}

/// Relies on `char::to_uppercase`: the Unicode uppercase mapping of the
/// character, one or more characters depending on the character alone.  The
/// mapping yields only characters that are their own uppercase mapping, and
/// it leaves the ASCII capital letters unchanged.
#[verifier::external_body]
pub(crate) fn char_upper(c: char) -> (r: Vec<char>)
    ensures
        r@ == upper_chars(c),
        upper_result_facts(r@),
{
    c.to_uppercase().collect()
}

/// Relies on `char::is_alphanumeric`: whether the character is Unicode
/// alphabetic or a digit, a property of the character alone.
#[verifier::external_body]
pub(crate) fn char_alnum(c: char) -> (r: bool)
    ensures
        r == alnum(c),
{
    c.is_alphanumeric()
}

/// Relies on `String: FromIterator<&char>`: collecting a character vector
/// yields the string of exactly those characters, in order.
#[verifier::external_body]
pub(crate) fn chars_to_string(v: &Vec<char>) -> (r: String)
    ensures
        r@ == v@,
{
    v.iter().collect()
}

/// The characters of a string slice, as a vector.
pub fn str_to_chars(s: &str) -> (r: Vec<char>)
    ensures
        r@ == s@,
{
    let n = s.unicode_len();
    let mut r: Vec<char> = Vec::new();
    let mut i: usize = 0;
    while i < n
        invariant
            i <= n,
            n == s@.len(),
            r@ == s@.subrange(0, i as int),
        decreases n - i,
    {
        r.push(s.get_char(i));
        i = i + 1;
        proof {
            assert(r@ =~= s@.subrange(0, i as int));
        }
    }
    proof {
        assert(r@ =~= s@);
    }
    r
}

// ---------------------------------------------------------------------------
// Character classes.
// ---------------------------------------------------------------------------
/// The whitespace characters the record grammar accepts between lines.
pub open spec fn is_space(c: char) -> bool {
    c == ' ' || c == '\t' || c == '\n' || c == '\r' || c == '\u{b}' || c == '\u{c}'
}

/// ASCII decimal digit.
pub open spec fn is_digit(c: char) -> bool {
    '0' <= c && c <= '9'
}

pub open spec fn digit_val(c: char) -> int {
    c as int - '0' as int
}

// ---------------------------------------------------------------------------
// Scanning over character sequences.
// ---------------------------------------------------------------------------
/// Length of the longest prefix of `s` that holds no newline.
pub open spec fn line_len(s: Seq<char>) -> int
    decreases s.len(),
{
    if s.len() == 0 || s[0] == '\n' {
        0
    } else {
        1 + line_len(s.drop_first())
    }
}

/// Length of the longest prefix of `s` made of whitespace.
pub open spec fn ws_len(s: Seq<char>) -> int
    decreases s.len(),
{
    if s.len() == 0 || !is_space(s[0]) {
        0
    } else {
        1 + ws_len(s.drop_first())
    }
}

/// Length of `s` once trailing whitespace is dropped.
pub open spec fn rtrim_len(s: Seq<char>) -> int
    decreases s.len(),
{
    if s.len() > 0 && is_space(s.last()) {
        rtrim_len(s.drop_last())
    } else {
        s.len() as int
    }
}

pub proof fn lemma_line_len(s: Seq<char>)
    ensures
        0 <= line_len(s) <= s.len(),
        forall|j: int| 0 <= j < line_len(s) ==> s[j] != '\n',
        line_len(s) < s.len() ==> s[line_len(s)] == '\n',
    decreases s.len(),
{
    if s.len() == 0 || s[0] == '\n' {
    } else {
        lemma_line_len(s.drop_first());
        assert forall|j: int| 0 <= j < line_len(s) implies s[j] != '\n' by {
            if j > 0 {
                assert(s.drop_first()[j - 1] == s[j]);
            }
        }
    }
}

pub proof fn lemma_line_len_is(s: Seq<char>, i: int)
    requires
        0 <= i <= s.len(),
        forall|j: int| 0 <= j < i ==> s[j] != '\n',
        i < s.len() ==> s[i] == '\n',
    ensures
        line_len(s) == i,
{
    lemma_line_len(s);
    if line_len(s) < i {
        assert(s[line_len(s)] == '\n');
        assert(false);
    }
    if line_len(s) > i {
        assert(s[i] != '\n');
        assert(false);
    }
}

pub proof fn lemma_ws_len(s: Seq<char>)
    ensures
        0 <= ws_len(s) <= s.len(),
        forall|j: int| 0 <= j < ws_len(s) ==> is_space(s[j]),
        ws_len(s) < s.len() ==> !is_space(s[ws_len(s)]),
    decreases s.len(),
{
    if s.len() == 0 || !is_space(s[0]) {
    } else {
        lemma_ws_len(s.drop_first());
        assert forall|j: int| 0 <= j < ws_len(s) implies is_space(s[j]) by {
            if j > 0 {
                assert(s.drop_first()[j - 1] == s[j]);
            }
        }
    }
}

pub proof fn lemma_ws_len_is(s: Seq<char>, i: int)
    requires
        0 <= i <= s.len(),
        forall|j: int| 0 <= j < i ==> is_space(s[j]),
        i < s.len() ==> !is_space(s[i]),
    ensures
        ws_len(s) == i,
{
    lemma_ws_len(s);
    if ws_len(s) < i {
        assert(is_space(s[ws_len(s)]));
        assert(false);
    }
    if ws_len(s) > i {
        assert(is_space(s[i]));
        assert(false);
    }
}

pub proof fn lemma_rtrim_len(s: Seq<char>)
    ensures
        0 <= rtrim_len(s) <= s.len(),
        forall|j: int| rtrim_len(s) <= j < s.len() ==> is_space(s[j]),
        rtrim_len(s) > 0 ==> !is_space(s[rtrim_len(s) - 1]),
    decreases s.len(),
{
    if s.len() > 0 && is_space(s.last()) {
        lemma_rtrim_len(s.drop_last());
        assert forall|j: int| rtrim_len(s) <= j < s.len() implies is_space(s[j]) by {
            if j < s.len() - 1 {
                assert(s.drop_last()[j] == s[j]);
            }
        }
    }
}

pub proof fn lemma_rtrim_len_is(s: Seq<char>, i: int)
    requires
        0 <= i <= s.len(),
        forall|j: int| i <= j < s.len() ==> is_space(s[j]),
        i > 0 ==> !is_space(s[i - 1]),
    ensures
        rtrim_len(s) == i,
{
    lemma_rtrim_len(s);
    if rtrim_len(s) < i {
        assert(is_space(s[i - 1]));
        assert(false);
    }
    if rtrim_len(s) > i {
        assert(is_space(s[rtrim_len(s) - 1]));
        assert(false);
    }
}

/// `sub` occurs in `s` at position `i`.
pub open spec fn found_at(s: Seq<char>, sub: Seq<char>, i: int) -> bool {
    0 <= i && i + sub.len() <= s.len() && s.subrange(i, i + sub.len()) == sub
}

/// The first position where `sub` occurs in `s`, or -1 when it never does.
pub open spec fn first_at(s: Seq<char>, sub: Seq<char>) -> int
    decreases s.len(),
{
    if sub.len() > s.len() {
        -1
    } else if s.subrange(0, sub.len() as int) == sub {
        0
    } else if s.len() == 0 {
        -1
    } else {
        let r = first_at(s.drop_first(), sub);
        if r < 0 {
            -1
        } else {
            r + 1
        }
    }
}

pub proof fn lemma_first_at(s: Seq<char>, sub: Seq<char>)
    requires
        sub.len() >= 1,
    ensures
        first_at(s, sub) >= 0 ==> found_at(s, sub, first_at(s, sub)),
        forall|j: int| 0 <= j < first_at(s, sub) ==> !found_at(s, sub, j),
        first_at(s, sub) < 0 ==> forall|j: int| !found_at(s, sub, j),
    decreases s.len(),
{
    if sub.len() > s.len() {
        assert forall|j: int| !found_at(s, sub, j) by {}
    } else if s.subrange(0, sub.len() as int) == sub {
    } else {
        lemma_first_at(s.drop_first(), sub);
        assert forall|j: int| 1 <= j && found_at(s.drop_first(), sub, j - 1) implies found_at(
            s,
            sub,
            j,
        ) by {
            assert(forall|k: int|
                0 <= k < sub.len() ==> s.drop_first()[j - 1 + k] == #[trigger] s[j + k]);
            assert(s.drop_first().subrange(j - 1, j - 1 + sub.len()) =~= s.subrange(
                j,
                j + sub.len(),
            ));
        }
        assert forall|j: int| 1 <= j && found_at(s, sub, j) implies found_at(
            s.drop_first(),
            sub,
            j - 1,
        ) by {
            assert(forall|k: int|
                0 <= k < sub.len() ==> s.drop_first()[j - 1 + k] == #[trigger] s[j + k]);
            assert(s.drop_first().subrange(j - 1, j - 1 + sub.len()) =~= s.subrange(
                j,
                j + sub.len(),
            ));
        }
        if first_at(s.drop_first(), sub) >= 0 {
            assert(found_at(s, sub, first_at(s, sub)));
            assert forall|j: int| 0 <= j < first_at(s, sub) implies !found_at(s, sub, j) by {
                if j > 0 {
                    assert(!found_at(s.drop_first(), sub, j - 1));
                }
            }
        } else {
            assert forall|j: int| !found_at(s, sub, j) by {
                if j >= 1 {
                    assert(!found_at(s.drop_first(), sub, j - 1));
                }
            }
        }
    }
}

pub proof fn lemma_first_at_is(s: Seq<char>, sub: Seq<char>, i: int)
    requires
        sub.len() >= 1,
        found_at(s, sub, i),
        forall|j: int| 0 <= j < i ==> !found_at(s, sub, j),
    ensures
        first_at(s, sub) == i,
{
    lemma_first_at(s, sub);
    if first_at(s, sub) < 0 {
        assert(!found_at(s, sub, i));
        assert(false);
    }
    if first_at(s, sub) < i {
        assert(!found_at(s, sub, first_at(s, sub)));
        assert(false);
    }
    if first_at(s, sub) > i {
        assert(!found_at(s, sub, i));
        assert(false);
    }
}

// ---------------------------------------------------------------------------
// Decimal digits.
// ---------------------------------------------------------------------------
pub open spec fn all_digits(s: Seq<char>) -> bool {
    forall|i: int| 0 <= i < s.len() ==> is_digit(#[trigger] s[i])
}

/// Numeric value of a digit string, most significant digit first.
pub open spec fn digits_value(s: Seq<char>) -> int
    decreases s.len(),
{
    if s.len() == 0 {
        0
    } else {
        digits_value(s.drop_last()) * 10 + digit_val(s.last())
    }
}

pub proof fn lemma_digits_value_bounds(s: Seq<char>)
    requires
        all_digits(s),
    ensures
        digits_value(s) >= 0,
        s.len() > 0 ==> digits_value(s) >= digit_val(s.last()),
    decreases s.len(),
{
    if s.len() > 0 {
        assert(forall|i: int|
            0 <= i < s.drop_last().len() ==> is_digit(#[trigger] s.drop_last()[i]));
        lemma_digits_value_bounds(s.drop_last());
    }
}

/// The value of a digit-string prefix never exceeds the value of the whole.
pub proof fn lemma_digits_value_prefix(s: Seq<char>, i: int)
    requires
        all_digits(s),
        0 <= i <= s.len(),
    ensures
        digits_value(s.take(i)) <= digits_value(s),
    decreases s.len(),
{
    lemma_digits_value_bounds(s);
    if i == s.len() {
        assert(s.take(i) =~= s);
    } else {
        assert(forall|j: int|
            0 <= j < s.drop_last().len() ==> is_digit(#[trigger] s.drop_last()[j]));
        assert(s.take(i) =~= s.drop_last().take(i));
        lemma_digits_value_prefix(s.drop_last(), i);
        lemma_digits_value_bounds(s.drop_last());
        assert(digits_value(s) == digits_value(s.drop_last()) * 10 + digit_val(s.last()));
    }
}

pub open spec fn digit_char(d: int) -> char {
    if d == 0 {
        '0'
    } else if d == 1 {
        '1'
    } else if d == 2 {
        '2'
    } else if d == 3 {
        '3'
    } else if d == 4 {
        '4'
    } else if d == 5 {
        '5'
    } else if d == 6 {
        '6'
    } else if d == 7 {
        '7'
    } else if d == 8 {
        '8'
    } else {
        '9'
    }
}

/// Decimal rendering of a non-negative number.
pub open spec fn dec_of(n: int) -> Seq<char>
    decreases n,
{
    if n < 10 {
        seq![digit_char(n)]
    } else {
        dec_of(n / 10).push(digit_char(n % 10))
    }
}

pub proof fn lemma_dec_of(n: int)
    requires
        0 <= n,
    ensures
        dec_of(n).len() >= 1,
        all_digits(dec_of(n)),
        digits_value(dec_of(n)) == n,
    decreases n,
{
    if n < 10 {
        assert(dec_of(n) =~= seq![digit_char(n)]);
        assert(dec_of(n).drop_last() =~= Seq::<char>::empty());
        assert(digits_value(dec_of(n)) == digits_value(Seq::<char>::empty()) * 10 + digit_val(
            digit_char(n),
        ));
        assert(digit_val(digit_char(n)) == n);
    } else {
        lemma_dec_of(n / 10);
        let s = dec_of(n);
        assert(s == dec_of(n / 10).push(digit_char(n % 10)));
        assert(s.drop_last() =~= dec_of(n / 10));
        assert(s.last() == digit_char(n % 10));
        assert(digits_value(s) == (n / 10) * 10 + (n % 10));
        assert forall|i: int| 0 <= i < s.len() implies is_digit(#[trigger] s[i]) by {
            if i < s.len() - 1 {
                assert(s[i] == dec_of(n / 10)[i]);
            }
        }
    }
}

// ---------------------------------------------------------------------------
// Executable counterparts on character vectors.
// ---------------------------------------------------------------------------
/// Copy of `v[from..to]`.
pub fn vec_slice(v: &Vec<char>, from: usize, to: usize) -> (r: Vec<char>)
    requires
        from <= to <= v@.len(),
    ensures
        r@ == v@.subrange(from as int, to as int),
{
    let mut r: Vec<char> = Vec::new();
    let mut i: usize = from;
    while i < to
        invariant
            from <= i <= to <= v@.len(),
            r@ == v@.subrange(from as int, i as int),
        decreases to - i,
    {
        r.push(v[i]);
        i = i + 1;
        proof {
            assert(r@ =~= v@.subrange(from as int, i as int));
        }
    }
    r
}

/// Does `p` occur in `v` at position `i`?
pub fn occurs_at(v: &Vec<char>, i: usize, p: &Vec<char>) -> (r: bool)
    requires
        i + p@.len() <= v@.len(),
    ensures
        r == found_at(v@, p@, i as int),
{
    let n: usize = v.len();
    let q: usize = p.len();
    let mut j: usize = 0;
    while j < q
        invariant
            j <= q,
            q == p@.len(),
            n == v@.len(),
            i + q <= n,
            forall|k: int| 0 <= k < j ==> v@[i + k] == p@[k],
        decreases q - j,
    {
        if v[i + j] != p[j] {
            proof {
                assert(v@.subrange(i as int, i + p@.len())[j as int] == v@[i + j]);
            }
            return false;
        }
        j = j + 1;
    }
    proof {
        assert(v@.subrange(i as int, i + p@.len()) =~= p@);
    }
    true
}

/// First occurrence of `p` in `v`.
pub fn find_first(v: &Vec<char>, p: &Vec<char>) -> (r: Option<usize>)
    requires
        p@.len() >= 1,
    ensures
        match r {
            Some(i) => first_at(v@, p@) == i as int,
            None => first_at(v@, p@) == -1,
        },
{
    if p.len() > v.len() {
        proof {
            lemma_first_at(v@, p@);
            assert(!found_at(v@, p@, 0));
        }
        return None;
    }
    let n: usize = v.len();
    let q: usize = p.len();
    let last_start: usize = n - q;
    let mut i: usize = 0;
    while i <= last_start
        invariant
            q == p@.len(),
            n == v@.len(),
            1 <= q <= n,
            i <= last_start + 1,
            last_start + q == n,
            forall|j: int| 0 <= j < i ==> !found_at(v@, p@, j),
        decreases last_start + 1 - i,
    {
        if occurs_at(v, i, p) {
            proof {
                lemma_first_at_is(v@, p@, i as int);
            }
            return Some(i);
        }
        i = i + 1;
    }
    proof {
        lemma_first_at(v@, p@);
        assert forall|j: int| !found_at(v@, p@, j) by {
            if 0 <= j <= last_start {
                assert(!found_at(v@, p@, j));
            }
        }
        if first_at(v@, p@) >= 0 {
            assert(found_at(v@, p@, first_at(v@, p@)));
            assert(false);
        }
    }
    None
}

} // verus!

