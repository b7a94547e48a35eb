//! The record codec: one textual grammar used in both directions.  A
//! record renders as six labeled lines — plate, brand, color, comment,
//! occupant count, city of first sighting — with the placeholder token `?`
//! standing for an absent field.  Parsing anchors on the same literal
//! labels, in the same order, so a rendered record is itself valid input,
//! and parsing a rendering gives back the record with its normalized
//! plate.
use crate::plate::normalize_license_plate;
use crate::plate::normalized;
use crate::record::{opt_view, CarInfo, RecordModel};
use crate::text::{
    all_digits, chars_to_string, dec_of, digit_char, digits_value, found_at, first_at, is_digit,
    is_space, lemma_dec_of, lemma_digits_value_prefix, lemma_first_at, lemma_first_at_is,
    lemma_line_len_is, lemma_rtrim_len_is, lemma_ws_len_is, line_len, rtrim_len, str_to_chars,
    vec_slice, occurs_at, find_first, ws_len,
};
use vstd::arithmetic::div_mod::lemma_div_denominator;
use vstd::prelude::*;
use vstd::string::StringExecFns;

verus! {

// ---------------------------------------------------------------------------
// The grammar's fixed tokens.
// ---------------------------------------------------------------------------
pub open spec fn placeholder() -> Seq<char> {
    "?"@
}

pub open spec fn nl() -> Seq<char> {
    "\n"@
}

pub open spec fn label_plate() -> Seq<char> {
    "Номерний знак: "@
}

pub open spec fn label_brand() -> Seq<char> {
    "Авто: "@
}

pub open spec fn label_color() -> Seq<char> {
    "Колір авто: "@
}

pub open spec fn label_comment() -> Seq<char> {
    "Особливості: "@
}

pub open spec fn label_people() -> Seq<char> {
    "Чисельність ДРГ: "@
}

pub open spec fn label_city() -> Seq<char> {
    "Місто де вперше було зафіксовано: "@
}

// ---------------------------------------------------------------------------
// Rendering.
// ---------------------------------------------------------------------------
pub open spec fn field_str(f: Option<Seq<char>>) -> Seq<char> {
    match f {
        Option::Some(s) => s,
        Option::None => placeholder(),
    }
}

pub open spec fn people_str(p: Option<u8>) -> Seq<char> {
    match p {
        Option::Some(n) => dec_of(n as int),
        Option::None => placeholder(),
    }
}

/// The rendered lines from the occupant count on.
pub open spec fn render_from_people(rec: RecordModel) -> Seq<char> {
    people_str(rec.number_of_people) + nl() + label_city() + field_str(rec.reported_in_city)
}

/// The rendered lines from the comment on.
pub open spec fn render_from_comment(rec: RecordModel) -> Seq<char> {
    field_str(rec.comment) + nl() + label_people() + render_from_people(rec)
}

/// The rendered lines from the color on.
pub open spec fn render_from_color(rec: RecordModel) -> Seq<char> {
    field_str(rec.car_color) + nl() + label_comment() + render_from_comment(rec)
}

/// The rendered lines from the brand on.
pub open spec fn render_from_brand(rec: RecordModel) -> Seq<char> {
    field_str(rec.car_brand) + nl() + label_color() + render_from_color(rec)
}

/// The rendered text of a record under a plate: six labeled lines.
pub open spec fn render_spec(rec: RecordModel, plate: Seq<char>) -> Seq<char> {
    label_plate() + plate + nl() + label_brand() + render_from_brand(rec)
}

fn exec_digit_char(d: u8) -> (r: char)
    requires
        d < 10,
    ensures
        r == digit_char(d as int),
{
    if d == 0 {
        '0'
    } else if d == 1 {
        '1'
    } else if d == 2 {
        '2'
    } else if d == 3 {
        '3'
    } else if d == 4 {
        '4'
    } else if d == 5 {
        '5'
    } else if d == 6 {
        '6'
    } else if d == 7 {
        '7'
    } else if d == 8 {
        '8'
    } else {
        '9'
    }
}

/// Decimal rendering of an occupant count.
fn u8_to_chars(n: u8) -> (r: Vec<char>)
    ensures
        r@ == dec_of(n as int),
{
    let mut r: Vec<char> = Vec::new();
    if n >= 100 {
        r.push(exec_digit_char(n / 100));
    }
    if n >= 10 {
        r.push(exec_digit_char((n / 10) % 10));
    }
    r.push(exec_digit_char(n % 10));
    proof {
        let m = n as int;
        if n < 10 {
            assert(dec_of(m) == seq![digit_char(m)]);
        } else if n < 100 {
            assert(dec_of(m) == dec_of(m / 10).push(digit_char(m % 10)));
            assert(dec_of(m / 10) == seq![digit_char(m / 10)]);
        } else {
            lemma_div_denominator(m, 10, 10);
            assert(dec_of(m) == dec_of(m / 10).push(digit_char(m % 10)));
            assert(dec_of(m / 10) == dec_of(m / 100).push(digit_char((m / 10) % 10)));
            assert(dec_of(m / 100) == seq![digit_char(m / 100)]);
        }
        assert(r@ =~= dec_of(m));
    }
    r
}

fn append_field(out: &mut String, f: &Option<String>)
    ensures
        final (out)@ == old(out)@ + field_str(opt_view(*f)),
{
    match f {
        Option::Some(s) => out.append(s.as_str()),
        Option::None => out.append("?"),
    }
}

fn append_people(out: &mut String, p: &Option<u8>)
    ensures
        final (out)@ == old(out)@ + people_str(*p),
{
    match p {
        Option::Some(n) => {
            let v = u8_to_chars(*n);
            let s = chars_to_string(&v);
            out.append(s.as_str());
        },
        Option::None => out.append("?"),
    }
}

/// Render a record for display under a (normalized) plate.
#[verifier::rlimit(100)]
pub fn render_car_info(car_info: &CarInfo, plate: &str) -> (r: String)
    ensures
        r@ == render_spec(car_info@, plate@),
{
    let mut out = String::new();
    out.append("Номерний знак: ");
    out.append(plate);
    out.append("\n");
    out.append("Авто: ");
    append_field(&mut out, &car_info.car_brand);
    out.append("\n");
    out.append("Колір авто: ");
    append_field(&mut out, &car_info.car_color);
    out.append("\n");
    out.append("Особливості: ");
    append_field(&mut out, &car_info.comment);
    out.append("\n");
    out.append("Чисельність ДРГ: ");
    append_people(&mut out, &car_info.number_of_people);
    out.append("\n");
    out.append("Місто де вперше було зафіксовано: ");
    append_field(&mut out, &car_info.reported_in_city);
    proof {
        assert(out@ =~= render_spec(car_info@, plate@));
    }
    out
}

// ---------------------------------------------------------------------------
// Parsing.
// ---------------------------------------------------------------------------
#[derive(Debug, Clone, Copy, PartialEq, Eq, Structural)]
pub enum ParseError {
    /// The text does not match the six-line labeled grammar.
    Malformed,
    /// The occupant-count line holds digits whose value does not fit the
    /// count's range.
    CountOutOfRange,
}

/// What parsing a text yields: a record under its normalized plate, or one
/// of the two failures.
pub ghost enum ParseOutcome {
    Parsed { plate: Seq<char>, record: RecordModel },
    Malformed,
    CountOutOfRange,
}

/// The line at the head of `rest`: everything before the first newline.
pub open spec fn line_of(s: Seq<char>) -> Seq<char> {
    s.take(line_len(s))
}

/// What is left of `rest` once its head line and the following whitespace
/// are dropped.
pub open spec fn after_line_ws(s: Seq<char>) -> Seq<char> {
    let t = s.subrange(line_len(s), s.len() as int);
    t.subrange(ws_len(t), t.len() as int)
}

/// One grammar step: capture the head line of `rest` as a value (it must
/// be non-empty), skip whitespace, and demand the literal label `lab`
/// next; the remainder after the label is where the next step starts.
pub open spec fn next_field(rest: Seq<char>, lab: Seq<char>) -> Option<(Seq<char>, Seq<char>)> {
    let v = line_of(rest);
    if v.len() == 0 {
        Option::None
    } else {
        let t = after_line_ws(rest);
        if t.len() >= lab.len() && t.subrange(0, lab.len() as int) == lab {
            Option::Some((v, t.subrange(lab.len() as int, t.len() as int)))
        } else {
            Option::None
        }
    }
}

pub open spec fn decoded_field(v: Seq<char>) -> Option<Seq<char>> {
    if v == placeholder() {
        Option::None
    } else {
        Option::Some(v)
    }
}

/// Decode the occupant-count value and assemble the outcome.  The count
/// value, with trailing whitespace dropped, must be the placeholder or
/// digits only; digits above the representable range are the fatal count
/// failure.
pub open spec fn assemble(
    plate_v: Seq<char>,
    brand_v: Seq<char>,
    color_v: Seq<char>,
    comment_v: Seq<char>,
    people_v: Seq<char>,
    city_v: Seq<char>,
) -> ParseOutcome {
    let pv = people_v.take(rtrim_len(people_v));
    if pv == placeholder() || (pv.len() >= 1 && all_digits(pv) && digits_value(pv) <= 255) {
        ParseOutcome::Parsed {
            plate: normalized(plate_v),
            record: RecordModel {
                reported_in_city: decoded_field(city_v),
                car_brand: decoded_field(brand_v),
                car_color: decoded_field(color_v),
                comment: decoded_field(comment_v),
                number_of_people: if pv == placeholder() {
                    Option::None
                } else {
                    Option::Some(digits_value(pv) as u8)
                },
            },
        }
    } else if pv.len() >= 1 && all_digits(pv) {
        ParseOutcome::CountOutOfRange
    } else {
        ParseOutcome::Malformed
    }
}

/// The whole grammar: find the plate label, and take six labeled values
/// in the fixed order.
pub open spec fn parse_spec(s: Seq<char>) -> ParseOutcome {
    if first_at(s, label_plate()) < 0 {
        ParseOutcome::Malformed
    } else {
        let r0 = s.subrange(first_at(s, label_plate()) + label_plate().len(), s.len() as int);
        match next_field(r0, label_brand()) {
            Option::None => ParseOutcome::Malformed,
            Option::Some((plate_v, r1)) => match next_field(r1, label_color()) {
                Option::None => ParseOutcome::Malformed,
                Option::Some((brand_v, r2)) => match next_field(r2, label_comment()) {
                    Option::None => ParseOutcome::Malformed,
                    Option::Some((color_v, r3)) => match next_field(r3, label_people()) {
                        Option::None => ParseOutcome::Malformed,
                        Option::Some((comment_v, r4)) => match next_field(r4, label_city()) {
                            Option::None => ParseOutcome::Malformed,
                            Option::Some((people_v, r5)) => {
                                let city_v = line_of(r5);
                                if city_v.len() == 0 {
                                    ParseOutcome::Malformed
                                } else {
                                    assemble(plate_v, brand_v, color_v, comment_v, people_v, city_v)
                                }
                            },
                        },
                    },
                },
            },
        }
    }
}

/// One executable grammar step over character vectors.
fn next_field_exec(rest: Vec<char>, lab: &Vec<char>) -> (r: Option<(Vec<char>, Vec<char>)>)
    requires
        lab@.len() >= 1,
    ensures
        match r {
            Option::Some(p) => next_field(rest@, lab@) == Option::Some((p.0@, p.1@)),
            Option::None => next_field(rest@, lab@) is None,
        },
{
    let n: usize = rest.len();
    let mut ll: usize = 0;
    while ll < n && rest[ll] != '\n'
        invariant
            ll <= n,
            n == rest@.len(),
            forall|j: int| 0 <= j < ll ==> rest@[j] != '\n',
        decreases n - ll,
    {
        ll = ll + 1;
    }
    proof {
        lemma_line_len_is(rest@, ll as int);
        assert(line_of(rest@) == rest@.take(ll as int));
    }
    if ll == 0 {
        return Option::None;
    }
    let v = vec_slice(&rest, 0, ll);
    proof {
        assert(v@ =~= line_of(rest@));
    }
    let mut p: usize = ll;
    while p < n && (rest[p] == ' ' || rest[p] == '\t' || rest[p] == '\n' || rest[p] == '\r'
        || rest[p] == '\u{b}' || rest[p] == '\u{c}')
        invariant
            ll <= p <= n,
            n == rest@.len(),
            forall|j: int| ll <= j < p ==> is_space(#[trigger] rest@[j]),
        decreases n - p,
    {
        p = p + 1;
    }
    proof {
        let t = rest@.subrange(ll as int, n as int);
        assert(forall|j: int| 0 <= j < p - ll ==> is_space(#[trigger] t[j]));
        assert(p - ll < t.len() ==> !is_space(t[p - ll]));
        lemma_ws_len_is(t, p - ll);
        assert(after_line_ws(rest@) =~= rest@.subrange(p as int, n as int));
    }
    if n - p < lab.len() {
        proof {
            assert(after_line_ws(rest@).len() < lab@.len());
        }
        return Option::None;
    }
    if !occurs_at(&rest, p, lab) {
        proof {
            assert(after_line_ws(rest@).subrange(0, lab@.len() as int) =~= rest@.subrange(
                p as int,
                p + lab@.len(),
            ));
        }
        return Option::None;
    }
    let tail = vec_slice(&rest, p + lab.len(), n);
    proof {
        let t2 = after_line_ws(rest@);
        assert(t2.subrange(0, lab@.len() as int) =~= rest@.subrange(p as int, p + lab@.len()));
        assert(tail@ =~= t2.subrange(lab@.len() as int, t2.len() as int));
    }
    Option::Some((v, tail))
}

/// Is this value the placeholder token?
fn is_placeholder(v: &Vec<char>) -> (r: bool)
    ensures
        r == (v@ == placeholder()),
{
    proof {
        reveal_strlit("?");
    }
    if v.len() == 1 && v[0] == '?' {
        proof {
            assert(v@ =~= placeholder());
        }
        true
    } else {
        proof {
            if v@ == placeholder() {
                assert(v@.len() == 1 && v@[0] == '?');
            }
        }
        false
    }
}

fn decode_field(v: Vec<char>) -> (r: Option<String>)
    ensures
        opt_view(r) == decoded_field(v@),
{
    if is_placeholder(&v) {
        Option::None
    } else {
        Option::Some(chars_to_string(&v))
    }
}

/// Parse a submission against the grammar.  On success the plate capture
/// comes back normalized, beside the decoded record.
#[verifier::loop_isolation(false)]
pub fn parse_car_info(text: &str) -> (r: Result<(String, CarInfo), ParseError>)
    ensures
        match r {
            Result::Ok(p) => parse_spec(text@) == (ParseOutcome::Parsed {
                plate: p.0@,
                record: p.1@,
            }),
            Result::Err(e) => (e == ParseError::Malformed && parse_spec(text@)
                == ParseOutcome::Malformed) || (e == ParseError::CountOutOfRange && parse_spec(
                text@,
            ) == ParseOutcome::CountOutOfRange),
        },
{
    proof {
        reveal_strlit("Номерний знак: ");
        reveal_strlit("Авто: ");
        reveal_strlit("Колір авто: ");
        reveal_strlit("Особливості: ");
        reveal_strlit("Чисельність ДРГ: ");
        reveal_strlit("Місто де вперше було зафіксовано: ");
    }
    let chars = str_to_chars(text);
    let lab_plate = str_to_chars("Номерний знак: ");
    let lab_brand = str_to_chars("Авто: ");
    let lab_color = str_to_chars("Колір авто: ");
    let lab_comment = str_to_chars("Особливості: ");
    let lab_people = str_to_chars("Чисельність ДРГ: ");
    let lab_city = str_to_chars("Місто де вперше було зафіксовано: ");
    let i0 = match find_first(&chars, &lab_plate) {
        Option::Some(i) => i,
        Option::None => {
            return Result::Err(ParseError::Malformed);
        },
    };
    let total: usize = chars.len();
    proof {
        lemma_first_at(chars@, lab_plate@);
        assert(found_at(chars@, lab_plate@, i0 as int));
        assert(i0 + lab_plate@.len() <= total);
    }
    let r0 = vec_slice(&chars, i0 + lab_plate.len(), total);
    proof {
        assert(r0@ == chars@.subrange(
            first_at(chars@, label_plate()) + label_plate().len(),
            chars@.len() as int,
        ));
    }
    let (plate_v, r1) = match next_field_exec(r0, &lab_brand) {
        Option::Some(p) => p,
        Option::None => {
            return Result::Err(ParseError::Malformed);
        },
    };
    let (brand_v, r2) = match next_field_exec(r1, &lab_color) {
        Option::Some(p) => p,
        Option::None => {
            return Result::Err(ParseError::Malformed);
        },
    };
    let (color_v, r3) = match next_field_exec(r2, &lab_comment) {
        Option::Some(p) => p,
        Option::None => {
            return Result::Err(ParseError::Malformed);
        },
    };
    let (comment_v, r4) = match next_field_exec(r3, &lab_people) {
        Option::Some(p) => p,
        Option::None => {
            return Result::Err(ParseError::Malformed);
        },
    };
    let (people_v, r5) = match next_field_exec(r4, &lab_city) {
        Option::Some(p) => p,
        Option::None => {
            return Result::Err(ParseError::Malformed);
        },
    };
    let n5: usize = r5.len();
    let mut cl: usize = 0;
    while cl < n5 && r5[cl] != '\n'
        invariant
            cl <= n5,
            n5 == r5@.len(),
            forall|j: int| 0 <= j < cl ==> r5@[j] != '\n',
        decreases n5 - cl,
    {
        cl = cl + 1;
    }
    proof {
        lemma_line_len_is(r5@, cl as int);
    }
    if cl == 0 {
        return Result::Err(ParseError::Malformed);
    }
    let city_v = vec_slice(&r5, 0, cl);
    proof {
        assert(city_v@ =~= line_of(r5@));
    }
    // Trim trailing whitespace off the occupant-count value.
    let mut e: usize = people_v.len();
    while e > 0 && (people_v[e - 1] == ' ' || people_v[e - 1] == '\t' || people_v[e - 1] == '\n'
        || people_v[e - 1] == '\r' || people_v[e - 1] == '\u{b}' || people_v[e - 1] == '\u{c}')
        invariant
            e <= people_v@.len(),
            forall|j: int| e <= j < people_v@.len() ==> is_space(#[trigger] people_v@[j]),
        decreases e,
    {
        e = e - 1;
    }
    proof {
        lemma_rtrim_len_is(people_v@, e as int);
    }
    let pv = vec_slice(&people_v, 0, e);
    proof {
        assert(pv@ == people_v@.take(rtrim_len(people_v@)));
    }
    proof {
        assert(parse_spec(text@) == assemble(
            plate_v@,
            brand_v@,
            color_v@,
            comment_v@,
            people_v@,
            city_v@,
        ));
    }
    let number_of_people: Option<u8> = if is_placeholder(&pv) {
        Option::None
    } else {
        if pv.len() == 0 {
            proof {
                assert(assemble(plate_v@, brand_v@, color_v@, comment_v@, people_v@, city_v@)
                    == ParseOutcome::Malformed);
            }
            return Result::Err(ParseError::Malformed);
        }
        let mut acc: u32 = 0;
        let mut k: usize = 0;
        while k < pv.len()
            invariant
                k <= pv@.len(),
                acc <= 255,
                acc == digits_value(pv@.take(k as int)),
                forall|j: int| 0 <= j < k ==> is_digit(#[trigger] pv@[j]),
            decreases pv@.len() - k,
        {
            let c = pv[k];
            if !('0' <= c && c <= '9') {
                return Result::Err(ParseError::Malformed);
            }
            proof {
                assert(pv@.take(k + 1).drop_last() =~= pv@.take(k as int));
                assert(pv@.take(k + 1).last() == pv@[k as int]);
            }
            acc = acc * 10 + (c as u32 - 48);
            k = k + 1;
            if acc > 255 {
                // Digits so far already exceed the range; more digits only
                // grow the value.
                let all_are: bool = check_all_digits(&pv, k);
                if !all_are {
                    return Result::Err(ParseError::Malformed);
                }
                proof {
                    lemma_digits_value_prefix(pv@, k as int);
                    assert(pv@.take(pv@.len() as int) =~= pv@);
                }
                return Result::Err(ParseError::CountOutOfRange);
            }
        }
        proof {
            assert(pv@.take(pv@.len() as int) =~= pv@);
        }
        Option::Some(acc as u8)
    };
    let plate_string = chars_to_string(&plate_v);
    let plate = normalize_license_plate(plate_string.as_str());
    let car_info = CarInfo {
        reported_in_city: decode_field(city_v),
        car_brand: decode_field(brand_v),
        car_color: decode_field(color_v),
        comment: decode_field(comment_v),
        number_of_people,
    };
    Result::Ok((plate, car_info))
}

// ---------------------------------------------------------------------------
// The round-trip law.
// ---------------------------------------------------------------------------
/// A field value the codec can carry through a round trip: it fills one
/// non-empty line and is not the placeholder token itself.
pub open spec fn codec_field_ok(f: Option<Seq<char>>) -> bool {
    f matches Some(v) ==> 1 <= v.len() && !v.contains('\n') && v != placeholder()
}

pub open spec fn record_ok(rec: RecordModel) -> bool {
    codec_field_ok(rec.car_brand) && codec_field_ok(rec.car_color) && codec_field_ok(rec.comment)
        && codec_field_ok(rec.reported_in_city)
}

/// A plate the codec can carry through a round trip: non-empty, on one
/// line.
pub open spec fn plate_ok(p: Seq<char>) -> bool {
    1 <= p.len() && !p.contains('\n')
}

proof fn lemma_next_field_step(rest: Seq<char>, value: Seq<char>, lab: Seq<char>, tail: Seq<char>)
    requires
        rest == value + nl() + lab + tail,
        1 <= value.len(),
        !value.contains('\n'),
        1 <= lab.len(),
        !is_space(lab[0]),
    ensures
        next_field(rest, lab) == Option::Some((value, tail)),
{
    reveal_strlit("\n");
    assert forall|j: int| 0 <= j < value.len() implies rest[j] != '\n' by {
        assert(rest[j] == value[j]);
        if value[j] == '\n' {
            assert(value.contains('\n'));
        }
    }
    assert(rest[value.len() as int] == '\n');
    lemma_line_len_is(rest, value.len() as int);
    assert(line_of(rest) =~= value);
    let t = rest.subrange(line_len(rest), rest.len() as int);
    assert(t =~= nl() + lab + tail);
    assert(is_space(t[0]));
    assert(!is_space(t[1]));
    lemma_ws_len_is(t, 1);
    let t2 = t.subrange(ws_len(t), t.len() as int);
    assert(t2 =~= lab + tail);
    assert(t2.subrange(0, lab.len() as int) =~= lab);
    assert(t2.subrange(lab.len() as int, t2.len() as int) =~= tail);
}

proof fn lemma_label_facts()
    ensures
        1 <= label_plate().len(),
        1 <= label_brand().len() && !is_space(label_brand()[0]),
        1 <= label_color().len() && !is_space(label_color()[0]),
        1 <= label_comment().len() && !is_space(label_comment()[0]),
        1 <= label_people().len() && !is_space(label_people()[0]),
        1 <= label_city().len() && !is_space(label_city()[0]),
{
    reveal_strlit("Номерний знак: ");
    reveal_strlit("Авто: ");
    reveal_strlit("Колір авто: ");
    reveal_strlit("Особливості: ");
    reveal_strlit("Чисельність ДРГ: ");
    reveal_strlit("Місто де вперше було зафіксовано: ");
}

proof fn lemma_placeholder_facts()
    ensures
        placeholder().len() == 1,
        placeholder()[0] == '?',
{
    reveal_strlit("?");
}

proof fn lemma_field_value(f: Option<Seq<char>>)
    requires
        codec_field_ok(f),
    ensures
        1 <= field_str(f).len(),
        !field_str(f).contains('\n'),
        decoded_field(field_str(f)) == f,
{
    lemma_placeholder_facts();
    match f {
        Option::Some(v) => {
        },
        Option::None => {
            if placeholder().contains('\n') {
                let i = choose|i: int|
                    0 <= i < placeholder().len() && placeholder()[i] == '\n';
                assert(placeholder()[i] == '?');
            }
        },
    }
}

/// Rendering and parsing are inverse: parsing the rendering of a record
/// under a plate yields exactly the normalized plate and the record, for
/// every record whose present fields are single non-placeholder lines and
/// every non-empty single-line plate.
#[verifier::rlimit(60)]
pub proof fn lemma_parse_render_round_trip(rec: RecordModel, plate: Seq<char>)
    requires
        record_ok(rec),
        plate_ok(plate),
    ensures
        parse_spec(render_spec(rec, plate)) == (ParseOutcome::Parsed {
            plate: normalized(plate),
            record: rec,
        }),
{
    lemma_label_facts();
    lemma_placeholder_facts();
    let s = render_spec(rec, plate);
    let bv = field_str(rec.car_brand);
    let cv = field_str(rec.car_color);
    let mv = field_str(rec.comment);
    let pv0 = people_str(rec.number_of_people);
    let uv = field_str(rec.reported_in_city);
    lemma_field_value(rec.car_brand);
    lemma_field_value(rec.car_color);
    lemma_field_value(rec.comment);
    lemma_field_value(rec.reported_in_city);
    // Facts about the occupant-count value.
    match rec.number_of_people {
        Option::None => {
            assert(pv0 == placeholder());
            assert(!is_space(pv0[0]));
            lemma_rtrim_len_is(pv0, 1);
            assert(pv0.take(1) =~= pv0);
            if pv0.contains('\n') {
                let i = choose|i: int| 0 <= i < pv0.len() && pv0[i] == '\n';
                assert(pv0[i] == '?');
            }
        },
        Option::Some(n) => {
            lemma_dec_of(n as int);
            assert(pv0 == dec_of(n as int));
            assert(forall|j: int| 0 <= j < pv0.len() ==> is_digit(#[trigger] pv0[j]));
            assert(!is_space(pv0[pv0.len() - 1]));
            lemma_rtrim_len_is(pv0, pv0.len() as int);
            assert(pv0.take(pv0.len() as int) =~= pv0);
            if pv0 == placeholder() {
                assert(is_digit(pv0[0]) && pv0[0] == '?');
                assert(false);
            }
            if pv0.contains('\n') {
                let i = choose|i: int| 0 <= i < pv0.len() && pv0[i] == '\n';
                assert(is_digit(pv0[i]));
            }
        },
    }
    // The plate label stands first.
    assert(s.subrange(0, label_plate().len() as int) =~= label_plate());
    assert(found_at(s, label_plate(), 0));
    lemma_first_at_is(s, label_plate(), 0);
    let r0 = s.subrange(first_at(s, label_plate()) + label_plate().len(), s.len() as int);
    assert(r0 =~= plate + nl() + label_brand() + render_from_brand(rec));
    lemma_next_field_step(r0, plate, label_brand(), render_from_brand(rec));
    lemma_next_field_step(render_from_brand(rec), bv, label_color(), render_from_color(rec));
    lemma_next_field_step(render_from_color(rec), cv, label_comment(), render_from_comment(rec));
    lemma_next_field_step(render_from_comment(rec), mv, label_people(), render_from_people(rec));
    lemma_next_field_step(render_from_people(rec), pv0, label_city(), uv);
    // The city value is the last line.
    assert forall|j: int| 0 <= j < uv.len() implies uv[j] != '\n' by {
        if uv[j] == '\n' {
            assert(uv.contains('\n'));
        }
    }
    lemma_line_len_is(uv, uv.len() as int);
    assert(line_of(uv) =~= uv);
    // Assembling gives back the record.
    let outcome = assemble(plate, bv, cv, mv, pv0, uv);
    assert(parse_spec(s) == outcome);
    match rec.number_of_people {
        Option::None => {
            assert(outcome == (ParseOutcome::Parsed {
                plate: normalized(plate),
                record: rec,
            }));
        },
        Option::Some(n) => {
            assert(digits_value(pv0) == n as int);
            assert(outcome == (ParseOutcome::Parsed {
                plate: normalized(plate),
                record: rec,
            }));
        },
    }
}

/// The record with every field absent.
pub open spec fn all_absent() -> RecordModel {
    RecordModel {
        reported_in_city: Option::None,
        car_brand: Option::None,
        car_color: Option::None,
        comment: Option::None,
        number_of_people: Option::None,
    }
}

/// A record with every field absent parses back from its rendering as an
/// all-absent record, under the normalized plate.
pub proof fn lemma_all_absent_round_trip(plate: Seq<char>)
    requires
        plate_ok(plate),
    ensures
        parse_spec(render_spec(all_absent(), plate)) == (ParseOutcome::Parsed {
            plate: normalized(plate),
            record: all_absent(),
        }),
{
    lemma_parse_render_round_trip(all_absent(), plate);
}

/// Are the characters from `from` on all digits?
fn check_all_digits(v: &Vec<char>, from: usize) -> (r: bool)
    requires
        from <= v@.len(),
        forall|j: int| 0 <= j < from ==> is_digit(#[trigger] v@[j]),
    ensures
        r == all_digits(v@),
{
    let mut k: usize = from;
    while k < v.len()
        invariant
            from <= k <= v@.len(),
            forall|j: int| 0 <= j < k ==> is_digit(#[trigger] v@[j]),
        decreases v@.len() - k,
    {
        let c = v[k];
        if !('0' <= c && c <= '9') {
            return false;
        }
        k = k + 1;
    }
    true
}

} // verus!

