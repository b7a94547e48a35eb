//! The plate normalizer: uppercase the raw text, replace the thirteen
//! Cyrillic letters that look like Latin letters with their Latin
//! look-alikes, and drop every character that is not alphanumeric.  The
//! result is the lookup and storage key for a plate, so it must be stable:
//! normalizing twice gives the same text as normalizing once.
use crate::text::{
    alnum, char_alnum, char_upper, chars_to_string, str_to_chars, upper_chars, upper_fixed,
    upper_mapping_facts, upper_result_facts,
};
use vstd::prelude::*;

verus! {

/// The fixed substitution table: each of the thirteen uppercase Cyrillic
/// letters that are visually identical to a Latin letter maps to that Latin
/// letter; every other character stays itself.
pub open spec fn latin_of(c: char) -> char {
    if c == 'А' {
        'A'
    } else if c == 'В' {
        'B'
    } else if c == 'Е' {
        'E'
    } else if c == 'К' {
        'K'
    } else if c == 'М' {
        'M'
    } else if c == 'І' {
        'I'
    } else if c == 'Н' {
        'H'
    } else if c == 'О' {
        'O'
    } else if c == 'Р' {
        'P'
    } else if c == 'С' {
        'C'
    } else if c == 'Т' {
        'T'
    } else if c == 'У' {
        'Y'
    } else if c == 'Х' {
        'X'
    } else {
        c
    }
}

fn to_latin(c: char) -> (r: char)
    ensures
        r == latin_of(c),
{
    if c == 'А' {
        'A'
    } else if c == 'В' {
        'B'
    } else if c == 'Е' {
        'E'
    } else if c == 'К' {
        'K'
    } else if c == 'М' {
        'M'
    } else if c == 'І' {
        'I'
    } else if c == 'Н' {
        'H'
    } else if c == 'О' {
        'O'
    } else if c == 'Р' {
        'P'
    } else if c == 'С' {
        'C'
    } else if c == 'Т' {
        'T'
    } else if c == 'У' {
        'Y'
    } else if c == 'Х' {
        'X'
    } else {
        c
    }
}

/// The uppercase mapping of a whole sequence, character by character.
pub open spec fn upper_seq(s: Seq<char>) -> Seq<char>
    decreases s.len(),
{
    if s.len() == 0 {
        Seq::empty()
    } else {
        upper_chars(s[0]) + upper_seq(s.drop_first())
    }
}

/// Homoglyph substitution followed by dropping the non-alphanumerics.
pub open spec fn substitute_keep(s: Seq<char>) -> Seq<char>
    decreases s.len(),
{
    if s.len() == 0 {
        Seq::empty()
    } else {
        (if alnum(latin_of(s[0])) {
            seq![latin_of(s[0])]
        } else {
            Seq::empty()
        }) + substitute_keep(s.drop_first())
    }
}

/// The normalized form of a raw plate.
pub open spec fn normalized(s: Seq<char>) -> Seq<char> {
    substitute_keep(upper_seq(s))
}

proof fn lemma_upper_seq_push(s: Seq<char>, c: char)
    ensures
        upper_seq(s.push(c)) == upper_seq(s) + upper_chars(c),
    decreases s.len(),
{
    if s.len() == 0 {
        assert(s.push(c)[0] == c);
        assert(s.push(c).len() == 1);
        assert(s.push(c).drop_first() =~= Seq::<char>::empty());
        assert(upper_seq(s.push(c)) == upper_chars(c) + upper_seq(Seq::<char>::empty()));
        assert(upper_seq(Seq::<char>::empty()) == Seq::<char>::empty());
        assert(upper_seq(s) == Seq::<char>::empty());
        assert(upper_seq(s.push(c)) =~= upper_seq(s) + upper_chars(c));
    } else {
        assert(s.push(c)[0] == s[0]);
        assert(s.push(c).drop_first() =~= s.drop_first().push(c));
        lemma_upper_seq_push(s.drop_first(), c);
        assert(upper_seq(s.push(c)) =~= upper_seq(s) + upper_chars(c));
    }
}

proof fn lemma_substitute_keep_push(s: Seq<char>, c: char)
    ensures
        substitute_keep(s.push(c)) == substitute_keep(s) + (if alnum(latin_of(c)) {
            seq![latin_of(c)]
        } else {
            Seq::<char>::empty()
        }),
    decreases s.len(),
{
    if s.len() == 0 {
        assert(s.push(c)[0] == c);
        assert(s.push(c).len() == 1);
        assert(s.push(c).drop_first() =~= Seq::<char>::empty());
        assert(substitute_keep(s.push(c)) == (if alnum(latin_of(c)) {
            seq![latin_of(c)]
        } else {
            Seq::<char>::empty()
        }) + substitute_keep(Seq::<char>::empty()));
        assert(substitute_keep(Seq::<char>::empty()) == Seq::<char>::empty());
        assert(substitute_keep(s) == Seq::<char>::empty());
        assert(substitute_keep(s.push(c)) =~= substitute_keep(s) + (if alnum(latin_of(c)) {
            seq![latin_of(c)]
        } else {
            Seq::<char>::empty()
        }));
    } else {
        assert(s.push(c)[0] == s[0]);
        assert(s.push(c).drop_first() =~= s.drop_first().push(c));
        lemma_substitute_keep_push(s.drop_first(), c);
        assert(substitute_keep(s.push(c)) =~= substitute_keep(s) + (if alnum(latin_of(c)) {
            seq![latin_of(c)]
        } else {
            Seq::<char>::empty()
        }));
    }
}

proof fn lemma_substitute_keep_concat(a: Seq<char>, b: Seq<char>)
    ensures
        substitute_keep(a + b) == substitute_keep(a) + substitute_keep(b),
    decreases a.len(),
{
    if a.len() == 0 {
        assert(a + b =~= b);
        assert(substitute_keep(a) + substitute_keep(b) =~= substitute_keep(b));
    } else {
        assert((a + b).drop_first() =~= a.drop_first() + b);
        lemma_substitute_keep_concat(a.drop_first(), b);
        assert((a + b)[0] == a[0]);
        assert(substitute_keep(a + b) =~= substitute_keep(a) + substitute_keep(b));
    }
}

/// A character the normalizer can output: alphanumeric, already Latin as
/// far as the substitution table is concerned, and its own uppercase
/// mapping.
pub open spec fn normal_char(c: char) -> bool {
    alnum(c) && latin_of(c) == c && upper_fixed(c)
}

pub open spec fn normal_seq(s: Seq<char>) -> bool {
    forall|i: int| 0 <= i < s.len() ==> normal_char(#[trigger] s[i])
}

proof fn lemma_upper_seq_id(s: Seq<char>)
    requires
        forall|i: int| 0 <= i < s.len() ==> upper_fixed(#[trigger] s[i]),
    ensures
        upper_seq(s) == s,
    decreases s.len(),
{
    if s.len() == 0 {
        assert(upper_seq(s) =~= s);
    } else {
        assert(forall|i: int|
            0 <= i < s.drop_first().len() ==> upper_fixed(#[trigger] s.drop_first()[i]));
        lemma_upper_seq_id(s.drop_first());
        assert(upper_chars(s[0]) == seq![s[0]]);
        assert(upper_seq(s) =~= s);
    }
}

proof fn lemma_substitute_keep_id(s: Seq<char>)
    requires
        forall|i: int| 0 <= i < s.len() ==> alnum(#[trigger] s[i]) && latin_of(s[i]) == s[i],
    ensures
        substitute_keep(s) == s,
    decreases s.len(),
{
    if s.len() == 0 {
        assert(substitute_keep(s) =~= s);
    } else {
        assert(forall|i: int|
            0 <= i < s.drop_first().len() ==> alnum(#[trigger] s.drop_first()[i]) && latin_of(
                s.drop_first()[i],
            ) == s.drop_first()[i]);
        lemma_substitute_keep_id(s.drop_first());
        assert(substitute_keep(s) =~= s);
    }
}

/// A sequence made only of normalizer output characters is a fixed point of
/// normalization.
pub proof fn lemma_normal_seq_fixed(s: Seq<char>)
    requires
        normal_seq(s),
    ensures
        normalized(s) == s,
{
    assert(forall|i: int| 0 <= i < s.len() ==> upper_fixed(#[trigger] s[i]));
    lemma_upper_seq_id(s);
    assert(forall|i: int| 0 <= i < s.len() ==> alnum(#[trigger] s[i]) && latin_of(s[i]) == s[i]);
    lemma_substitute_keep_id(s);
}

/// Normalize a raw plate: uppercase, substitute the homoglyph table, drop
/// everything that is not alphanumeric.  The second clause is the
/// stability law: normalizing an already normalized plate changes nothing,
/// so `normalized(normalized(x)) == normalized(x)` for every raw plate `x`.
pub fn normalize_license_plate(raw_license_plate: &str) -> (r: String)
    ensures
        r@ == normalized(raw_license_plate@),
        normalized(r@) == r@,
{
    let chars = str_to_chars(raw_license_plate);
    let n: usize = chars.len();
    let mut out: Vec<char> = Vec::new();
    let mut i: usize = 0;
    while i < n
        invariant
            i <= n,
            n == chars@.len(),
            chars@ == raw_license_plate@,
            out@ == normalized(chars@.take(i as int)),
            normal_seq(out@),
        decreases n - i,
    {
        let us = char_upper(chars[i]);
        let m: usize = us.len();
        let mut j: usize = 0;
        while j < m
            invariant
                j <= m,
                m == us@.len(),
                i < n,
                n == chars@.len(),
                us@ == upper_chars(chars@[i as int]),
                upper_result_facts(us@),
                out@ == normalized(chars@.take(i as int)) + substitute_keep(us@.take(j as int)),
                normal_seq(out@),
            decreases m - j,
        {
            let u = us[j];
            let w = to_latin(u);
            if char_alnum(w) {
                proof {
                    assert(upper_fixed(u));
                    assert(normal_char(w));
                }
                out.push(w);
                proof {
                    assert(normal_seq(out@));
                }
            }
            j = j + 1;
            proof {
                assert(us@.take(j as int) =~= us@.take(j - 1).push(u));
                lemma_substitute_keep_push(us@.take(j - 1), u);
                assert(out@ =~= normalized(chars@.take(i as int)) + substitute_keep(
                    us@.take(j as int),
                ));
            }
        }
        i = i + 1;
        proof {
            assert(us@.take(m as int) =~= us@);
            assert(chars@.take(i as int) =~= chars@.take(i - 1).push(chars@[i - 1]));
            lemma_upper_seq_push(chars@.take(i - 1), chars@[i - 1]);
            lemma_substitute_keep_concat(upper_seq(chars@.take(i - 1)), upper_chars(chars@[i - 1]));
            assert(out@ =~= normalized(chars@.take(i as int)));
        }
    }
    proof {
        assert(chars@.take(n as int) =~= chars@);
        lemma_normal_seq_fixed(out@);
    }
    chars_to_string(&out)
}

} // verus!
