//! Reading the alert feed: decimal numbers of the feed's JSON text into
//! coordinate units, and the extraction of alert records from the parsed
//! document.

use crate::geo::{
    at_position, paint_ordered, sort_alerts, views, Alert, AlertView, Coordinate, UNIT_PLACES,
};
use serde_json::{Number, Value};
use vstd::prelude::*;
use vstd::string::StrSliceExecFns;
use vstd::string::StringExecFns;

verus! {

/// Largest mantissa, exclusive, that a number may carry.
pub const MANTISSA_CAP: u128 = 1_000_000_000_000_000_000_000_000_000_000;

/// Largest exponent magnitude, exclusive, that a number may carry.
pub const EXPONENT_CAP: u64 = 10_000;

/// `c` is a decimal digit.
pub open spec fn is_digit(c: char) -> bool {
    '0' <= c && c <= '9'
}

/// Value of the decimal digit `c`.
pub open spec fn digit_value(c: char) -> nat {
    (c as u32 - '0' as u32) as nat
}

/// Value of the decimal digits `t`, most significant first.
pub open spec fn digits_value(t: Seq<char>) -> nat
    decreases t.len(),
{
    if t.len() == 0 {
        0
    } else {
        digits_value(t.drop_last()) * 10 + digit_value(t.last())
    }
}

/// `10^e`.
pub open spec fn pow10(e: nat) -> nat
    decreases e,
{
    if e == 0 {
        1
    } else {
        10 * pow10((e - 1) as nat)
    }
}

/// End of the run of digits of `s` that starts at `i`.
pub open spec fn digit_run(s: Seq<char>, i: int) -> int
    decreases s.len() - i,
{
    if 0 <= i < s.len() && is_digit(s[i]) {
        digit_run(s, i + 1)
    } else {
        i
    }
}

/// The parts of a JSON number: its sign, the digits before and after the
/// point read as one integer, the number of digits after the point, and the
/// decimal exponent.
pub struct NumberParts {
    pub negative: bool,
    pub mantissa: nat,
    pub places: nat,
    pub exponent: int,
}

/// The parts of `s` where it is a JSON number: an optional minus sign, one or
/// more digits, optionally a point and one or more digits, optionally `e` or
/// `E`, an optional sign and one or more digits.
pub open spec fn number_parts(s: Seq<char>) -> Option<NumberParts> {
    let negative = s.len() > 0 && s[0] == '-';
    let a: int = if negative {
        1
    } else {
        0
    };
    let b = digit_run(s, a);
    let has_point = b < s.len() && s[b] == '.';
    let c = if has_point {
        b + 1
    } else {
        b
    };
    let d = if has_point {
        digit_run(s, c)
    } else {
        b
    };
    let mantissa = digits_value(s.subrange(a, b) + s.subrange(c, d));
    let places = (d - c) as nat;
    if b == a || (has_point && d == c) {
        None
    } else if d == s.len() {
        Some(NumberParts { negative, mantissa, places, exponent: 0 })
    } else {
        match exponent_part(s, d) {
            None => None,
            Some(exponent) => Some(NumberParts { negative, mantissa, places, exponent }),
        }
    }
}

/// The exponent of the JSON number `s` whose exponent part starts at `d`:
/// `e` or `E`, an optional sign and one or more digits that end the text.
pub open spec fn exponent_part(s: Seq<char>, d: int) -> Option<int> {
    let signed = d + 1 < s.len() && (s[d + 1] == '+' || s[d + 1] == '-');
    let g = if signed {
        d + 2
    } else {
        d + 1
    };
    let h = digit_run(s, g);
    let magnitude = digits_value(s.subrange(g, h));
    if !(s[d] == 'e' || s[d] == 'E') || h == g || h != s.len() {
        None
    } else if signed && s[d + 1] == '-' {
        Some(-magnitude)
    } else {
        Some(magnitude as int)
    }
}

/// `m` scaled by `10^k`: multiplied for a non-negative `k`, divided and
/// truncated for a negative one.
pub open spec fn scaled_magnitude(m: nat, k: int) -> nat {
    if k >= 0 {
        m * pow10(k as nat)
    } else {
        m / pow10((-k) as nat)
    }
}

/// The JSON number `s` in units of 1e-7, truncated toward zero; `None` where
/// `s` is no JSON number, where its mantissa or exponent reaches its cap, or
/// where the result does not fit an `i64`.
pub open spec fn number_units(s: Seq<char>) -> Option<i64> {
    match number_parts(s) {
        None => None,
        Some(p) => {
            if p.mantissa >= MANTISSA_CAP || p.exponent <= -(EXPONENT_CAP as int) || p.exponent
                >= EXPONENT_CAP {
                None
            } else {
                let magnitude = scaled_magnitude(p.mantissa, p.exponent - p.places + UNIT_PLACES);
                if magnitude > i64::MAX {
                    None
                } else if p.negative {
                    Some((-magnitude) as i64)
                } else {
                    Some(magnitude as i64)
                }
            }
        },
    }
}

proof fn lemma_digits_value_grows(t: Seq<char>, u: Seq<char>)
    ensures
        digits_value(t) <= digits_value(t + u),
    decreases u.len(),
{
    if u.len() > 0 {
        lemma_digits_value_grows(t, u.drop_last());
        assert((t + u).drop_last() =~= t + u.drop_last());
    }
}

proof fn lemma_pow10_positive(e: nat)
    ensures
        pow10(e) >= 1,
    decreases e,
{
    if e > 0 {
        lemma_pow10_positive((e - 1) as nat);
    }
}

/// End of the run of digits of `s` that starts at `i`.
fn scan_digits(s: &str, n: usize, i: usize) -> (r: usize)
    requires
        n == s@.len(),
        i <= n,
    ensures
        r == digit_run(s@, i as int),
        i <= r <= n,
        forall|t: int| i <= t < r ==> is_digit(#[trigger] s@[t]),
{
    let mut j = i;
    while j < n && is_digit_char(s.get_char(j))
        invariant
            n == s@.len(),
            i <= j <= n,
            digit_run(s@, i as int) == digit_run(s@, j as int),
            forall|t: int| i <= t < j ==> is_digit(#[trigger] s@[t]),
        decreases n - j,
    {
        j += 1;
    }
    j
}

fn is_digit_char(c: char) -> (r: bool)
    ensures
        r == is_digit(c),
{
    '0' <= c && c <= '9'
}

/// Adds the digits of `s` in `[from, to)` to `acc`, which holds the value of
/// `prefix`; `None` once the value reaches `cap`.
fn accumulate(
    s: &str,
    from: usize,
    to: usize,
    acc: u128,
    cap: u128,
    Ghost(prefix): Ghost<Seq<char>>,
) -> (r: Option<u128>)
    requires
        from <= to <= s@.len(),
        forall|t: int| from <= t < to ==> is_digit(#[trigger] s@[t]),
        acc == digits_value(prefix),
        acc < cap <= MANTISSA_CAP,
    ensures
        r matches Some(v) ==> v == digits_value(prefix + s@.subrange(from as int, to as int)) && v
            < cap,
        r is None ==> digits_value(prefix + s@.subrange(from as int, to as int)) >= cap,
{
    let mut v = acc;
    let mut i = from;
    assert(prefix + s@.subrange(from as int, from as int) =~= prefix);
    while i < to
        invariant
            from <= i <= to <= s@.len(),
            forall|t: int| from <= t < to ==> is_digit(#[trigger] s@[t]),
            v == digits_value(prefix + s@.subrange(from as int, i as int)),
            v < cap <= MANTISSA_CAP,
        decreases to - i,
    {
        let c = s.get_char(i);
        let d = (c as u32 - '0' as u32) as u128;
        let ghost before = prefix + s@.subrange(from as int, i as int);
        let ghost after = prefix + s@.subrange(from as int, i + 1);
        assert(after.drop_last() =~= before);
        v = v * 10 + d;
        i += 1;
        if v >= cap {
            proof {
                assert(prefix + s@.subrange(from as int, to as int) =~= after + s@.subrange(
                    i as int,
                    to as int,
                ));
                lemma_digits_value_grows(after, s@.subrange(i as int, to as int));
            }
            return None;
        }
    }
    Some(v)
}

proof fn lemma_pow10_adds(a: nat, b: nat)
    ensures
        pow10(a + b) == pow10(a) * pow10(b),
    decreases a,
{
    if a == 0 {
        assert(pow10(0) == 1);
        assert(a + b == b);
    } else {
        let a1 = (a - 1) as nat;
        lemma_pow10_adds(a1, b);
        assert(pow10(a) == 10 * pow10(a1));
        assert(a + b == (a1 + b) + 1);
        assert(pow10(a + b) == 10 * pow10(a1 + b));
        let x = pow10(a1);
        let y = pow10(b);
        assert(10 * (x * y) == (10 * x) * y) by (nonlinear_arith);
    }
}

/// `m` scaled by `10^k`: multiplied for a non-negative `k`, divided and
/// truncated for a negative one; `None` where the result exceeds `i64::MAX`.
#[verifier::rlimit(40)]
fn scale(m: u128, k: i128) -> (r: Option<u64>)
    requires
        m < MANTISSA_CAP,
        k > i128::MIN,
    ensures
        r matches Some(v) ==> v <= i64::MAX && v as nat == scaled_magnitude(m as nat, k as int),
        r is None <==> scaled_magnitude(m as nat, k as int) > i64::MAX,
{
    assert(pow10(0) == 1);
    if k >= 0 {
        let mut v: u128 = m;
        let mut j: i128 = 0;
        assert((m as nat) * pow10(0) == m as nat);
        while j < k
            invariant
                0 <= j <= k,
                v == (m as nat) * pow10(j as nat),
            decreases k - j,
        {
            if v > i64::MAX as u128 {
                proof {
                    lemma_pow10_adds(j as nat, (k - j) as nat);
                    lemma_pow10_positive((k - j) as nat);
                    assert((m as nat) * pow10(k as nat) == v * pow10((k - j) as nat)) by (nonlinear_arith)
                        requires
                            v == (m as nat) * pow10(j as nat),
                            pow10(k as nat) == pow10(j as nat) * pow10((k - j) as nat),
                    ;
                    assert(v * pow10((k - j) as nat) >= v) by (nonlinear_arith)
                        requires
                            pow10((k - j) as nat) >= 1,
                    ;
                }
                return None;
            }
            proof {
                assert(pow10((j + 1) as nat) == 10 * pow10(j as nat));
                assert((m as nat) * (10 * pow10(j as nat)) == ((m as nat) * pow10(j as nat)) * 10) by (nonlinear_arith);
            }
            v = v * 10;
            j = j + 1;
        }
        if v > i64::MAX as u128 {
            None
        } else {
            Some(v as u64)
        }
    } else {
        let mut v: u128 = m;
        let mut j: i128 = 0;
        let ghost e = (-k) as nat;
        assert((m as nat) / 1 == m as nat);
        let neg_k: i128 = -k;
        while j < neg_k
            invariant
                k < 0,
                e == -k,
                neg_k == -k,
                0 <= j <= e,
                v == (m as nat) / pow10(j as nat),
            decreases e - j,
        {
            if v == 0 {
                proof {
                    lemma_pow10_positive(j as nat);
                    lemma_pow10_positive((e - j) as nat);
                    lemma_pow10_adds(j as nat, (e - j) as nat);
                    let p = pow10(j as nat) as int;
                    vstd::arithmetic::div_mod::lemma_fundamental_div_mod(m as int, p);
                    vstd::arithmetic::div_mod::lemma_mod_pos_bound(m as int, p);
                    assert(p * ((m as int) / p) == 0);
                    assert((m as int) < p);
                    assert(p <= p * pow10((e - j) as nat)) by (nonlinear_arith)
                        requires
                            pow10((e - j) as nat) >= 1,
                            p >= 1,
                    ;
                    assert((m as nat) < pow10(e));
                    vstd::arithmetic::div_mod::lemma_basic_div(m as int, pow10(e) as int);
                }
                return Some(0);
            }
            proof {
                lemma_pow10_positive(j as nat);
                assert(pow10((j + 1) as nat) == 10 * pow10(j as nat));
                vstd::arithmetic::div_mod::lemma_div_denominator(m as int, pow10(j as nat) as int, 10);
                assert(pow10(j as nat) * 10 == 10 * pow10(j as nat));
            }
            v = v / 10;
            j = j + 1;
        }
        if v > i64::MAX as u128 {
            None
        } else {
            Some(v as u64)
        }
    }
}

/// The exponent of `text` whose exponent part starts at `d`, below its cap.
#[verifier::rlimit(40)]
fn parse_exponent(text: &str, n: usize, d: usize) -> (r: Option<i128>)
    requires
        n == text@.len(),
        d < n,
    ensures
        r matches Some(e) ==> exponent_part(text@, d as int) == Some(e as int) && -(
        EXPONENT_CAP as int) < e < EXPONENT_CAP,
        r is None ==> (exponent_part(text@, d as int) matches Some(e) ==> e <= -(
        EXPONENT_CAP as int) || e >= EXPONENT_CAP),
{
    let ghost s = text@;
    let e = text.get_char(d);
    if e != 'e' && e != 'E' {
        return None;
    }
    let signed = d + 1 < n && (text.get_char(d + 1) == '+' || text.get_char(d + 1) == '-');
    let g: usize = if signed {
        d + 2
    } else {
        d + 1
    };
    let h = scan_digits(text, n, g);
    if h == g || h != n {
        return None;
    }
    proof {
        assert(Seq::<char>::empty() + s.subrange(g as int, h as int) =~= s.subrange(
            g as int,
            h as int,
        ));
    }
    let magnitude = match accumulate(text, g, h, 0, EXPONENT_CAP as u128, Ghost(Seq::empty())) {
        Some(v) => v,
        None => {
            return None;
        },
    };
    if signed && text.get_char(d + 1) == '-' {
        Some(-(magnitude as i128))
    } else {
        Some(magnitude as i128)
    }
}

/// The parts of the JSON number `text` with its mantissa and exponent below
/// their caps; `None` where there are no such parts.
#[verifier::rlimit(40)]
fn parse_parts(text: &str) -> (r: Option<(bool, u128, usize, i128)>)
    ensures
        r matches Some(t) ==> number_parts(text@) == Some(
            NumberParts {
                negative: t.0,
                mantissa: t.1 as nat,
                places: t.2 as nat,
                exponent: t.3 as int,
            },
        ) && t.1 < MANTISSA_CAP && -(EXPONENT_CAP as int) < t.3 < EXPONENT_CAP,
        r is None ==> number_units(text@) is None,
{
    let ghost s = text@;
    let n = text.unicode_len();
    let negative = n > 0 && text.get_char(0) == '-';
    let a: usize = if negative {
        1
    } else {
        0
    };
    let b = scan_digits(text, n, a);
    if b == a {
        return None;
    }
    let has_point = b < n && text.get_char(b) == '.';
    let c: usize = if has_point {
        b + 1
    } else {
        b
    };
    let d: usize = if has_point {
        scan_digits(text, n, c)
    } else {
        b
    };
    if has_point && d == c {
        return None;
    }
    let ghost digits = s.subrange(a as int, b as int) + s.subrange(c as int, d as int);
    proof {
        assert(Seq::<char>::empty() + s.subrange(a as int, b as int) =~= s.subrange(
            a as int,
            b as int,
        ));
        assert(digits_value(Seq::<char>::empty()) == 0);
    }
    let whole = match accumulate(text, a, b, 0, MANTISSA_CAP, Ghost(Seq::empty())) {
        Some(v) => v,
        None => {
            proof {
                lemma_digits_value_grows(
                    s.subrange(a as int, b as int),
                    s.subrange(c as int, d as int),
                );
            }
            return None;
        },
    };
    let mantissa = match accumulate(
        text,
        c,
        d,
        whole,
        MANTISSA_CAP,
        Ghost(s.subrange(a as int, b as int)),
    ) {
        Some(v) => v,
        None => {
            return None;
        },
    };
    if d == n {
        return Some((negative, mantissa, d - c, 0));
    }
    match parse_exponent(text, n, d) {
        Some(exponent) => Some((negative, mantissa, d - c, exponent)),
        None => None,
    }
}

/// The JSON number `text` in units of 1e-7 (a coordinate in degrees read into
/// the units the library holds), truncated toward zero; `None` where `text`
/// is no JSON number or the value is out of range (see `number_units`).
#[verifier::rlimit(40)]
pub fn parse_degrees(text: &str) -> (r: Option<i64>)
    ensures
        r == number_units(text@),
{
    let (negative, mantissa, places, exponent) = match parse_parts(text) {
        Some(t) => t,
        None => {
            return None;
        },
    };
    let k: i128 = exponent - places as i128 + UNIT_PLACES as i128;
    match scale(mantissa, k) {
        Some(m) => {
            if negative {
                Some(-(m as i64))
            } else {
                Some(m as i64)
            }
        },
        None => None,
    }
}

/// A parsed JSON document of serde_json.
#[verifier::external_type_specification]
#[verifier::external_body]
pub struct ExValue(Value);

/// A JSON number of serde_json.
#[verifier::external_type_specification]
#[verifier::external_body]
pub struct ExNumber(Number);

/// What a JSON value holds; a number is held as the decimal text that
/// serde_json prints for it.
pub enum Json {
    Null,
    Bool(bool),
    Number(Seq<char>),
    Text(Seq<char>),
    Array(Seq<Json>),
    Object(Map<Seq<char>, Json>),
}

/// What the serde_json value `v` holds.
pub uninterp spec fn json_of(v: Value) -> Json;

/// The decimal text that serde_json's `Display` prints for the number `n`.
pub uninterp spec fn number_shown(n: Number) -> Seq<char>;

/// Relies on serde_json::Value::as_array: the elements of an array, `None`
/// for any other value.
pub assume_specification[ Value::as_array ](v: &Value) -> (r: Option<&Vec<Value>>)
    ensures
        r matches Some(a) ==> json_of(*v) == Json::Array(a@.map_values(|e: Value| json_of(e))),
        r is None ==> !(json_of(*v) is Array),
;

/// Relies on serde_json::Value::as_str: the text of a string, `None` for any
/// other value.
pub assume_specification[ Value::as_str ](v: &Value) -> (r: Option<&str>)
    ensures
        r matches Some(t) ==> json_of(*v) == Json::Text(t@),
        r is None ==> !(json_of(*v) is Text),
;

/// Relies on serde_json::Value::as_number: the number of a numeric value,
/// `None` for any other value.
pub assume_specification[ Value::as_number ](v: &Value) -> (r: Option<&Number>)
    ensures
        r matches Some(n) ==> json_of(*v) == Json::Number(number_shown(*n)),
        r is None ==> !(json_of(*v) is Number),
;

/// The member `key` of the JSON value `j`, where `j` is an object holding it.
pub open spec fn member_of(j: Json, key: Seq<char>) -> Option<Json> {
    match j {
        Json::Object(m) => if m.contains_key(key) {
            Some(m[key])
        } else {
            None
        },
        _ => None,
    }
}

/// Relies on serde_json::Value::get with a string key: the member `key` of an
/// object, `None` for a missing member or a value that is no object.
#[verifier::external_body]
fn member<'a>(v: &'a Value, key: &str) -> (r: Option<&'a Value>)
    ensures
        r matches Some(f) ==> member_of(json_of(*v), key@) == Some(json_of(*f)),
        r is None ==> member_of(json_of(*v), key@) is None,
{
    v.get(key)
}

/// Relies on serde_json's `Display` for `Number`: the decimal text of a
/// number, as JSON writes it.
#[verifier::external_body]
fn number_text(n: &Number) -> (r: String)
    ensures
        r@ == number_shown(*n),
{
    n.to_string()
}

/// The text of `j`, where it is a string.
pub open spec fn text_of(j: Option<Json>) -> Option<Seq<char>> {
    match j {
        Some(Json::Text(t)) => Some(t),
        _ => None,
    }
}

/// The decimal text of `j`, where it is a number.
pub open spec fn number_of(j: Option<Json>) -> Option<Seq<char>> {
    match j {
        Some(Json::Number(t)) => Some(t),
        _ => None,
    }
}

/// The text held by an optional string.
pub open spec fn text_view(o: Option<String>) -> Option<Seq<char>> {
    match o {
        Some(t) => Some(t@),
        None => None,
    }
}

/// The four fields of a feed record, as text: category, subcategory, and the
/// decimal texts of latitude and longitude.
pub open spec fn fields_view(f: (Option<String>, Option<String>, Option<String>, Option<String>)) -> (
    Option<Seq<char>>,
    Option<Seq<char>>,
    Option<Seq<char>>,
    Option<Seq<char>>,
) {
    (text_view(f.0), text_view(f.1), text_view(f.2), text_view(f.3))
}

/// The fields of the feed record `j`: its `type` and `subtype` strings, and
/// the numbers `y` (latitude) and `x` (longitude) of its `location`.
pub open spec fn record_fields(j: Json) -> (
    Option<Seq<char>>,
    Option<Seq<char>>,
    Option<Seq<char>>,
    Option<Seq<char>>,
) {
    let location = member_of(j, "location"@);
    (
        text_of(member_of(j, "type"@)),
        text_of(member_of(j, "subtype"@)),
        match location {
            Some(l) => number_of(member_of(l, "y"@)),
            None => None,
        },
        match location {
            Some(l) => number_of(member_of(l, "x"@)),
            None => None,
        },
    )
}

/// The fields of every record of the `alerts` array of the feed document
/// `j`, in order; none where there is no such array.
pub open spec fn feed_records(j: Json) -> Seq<
    (Option<Seq<char>>, Option<Seq<char>>, Option<Seq<char>>, Option<Seq<char>>),
> {
    match member_of(j, "alerts"@) {
        Some(Json::Array(s)) => s.map_values(|e: Json| record_fields(e)),
        _ => Seq::empty(),
    }
}

/// The decimal text of the number at member `key` of `v`.
fn number_member(v: &Value, key: &str) -> (r: Option<String>)
    ensures
        text_view(r) == number_of(member_of(json_of(*v), key@)),
{
    match member(v, key) {
        Some(field) => match field.as_number() {
            Some(n) => Some(number_text(n)),
            None => None,
        },
        None => None,
    }
}

/// The string at member `key` of `v`.
fn text_member(v: &Value, key: &str) -> (r: Option<String>)
    ensures
        text_view(r) == text_of(member_of(json_of(*v), key@)),
{
    match member(v, key) {
        Some(field) => match field.as_str() {
            Some(t) => Some(String::from_str(t)),
            None => None,
        },
        None => None,
    }
}

/// The alert of category `icon` and subcategory `subicon` at the latitude
/// and longitude whose JSON number texts are `lat` and `lon`; `None` where a
/// field is missing or a number does not read as a coordinate.
pub fn alert_from_fields(
    icon: Option<String>,
    subicon: Option<String>,
    lat: Option<String>,
    lon: Option<String>,
) -> (r: Option<Alert>)
    ensures
        r is Some <==> icon is Some && subicon is Some && (lat matches Some(t) && number_units(
            t@,
        ) is Some) && (lon matches Some(t) && number_units(t@) is Some),
        r matches Some(a) ==> a.icon@ == icon.unwrap()@ && a.subicon@ == subicon.unwrap()@
            && number_units(lat.unwrap()@) == Some(a.position.lat) && number_units(lon.unwrap()@)
            == Some(a.position.lon),
{
    let icon = match icon {
        Some(t) => t,
        None => {
            return None;
        },
    };
    let subicon = match subicon {
        Some(t) => t,
        None => {
            return None;
        },
    };
    let lat = match lat {
        Some(t) => match parse_degrees(t.as_str()) {
            Some(c) => c,
            None => {
                return None;
            },
        },
        None => {
            return None;
        },
    };
    let lon = match lon {
        Some(t) => match parse_degrees(t.as_str()) {
            Some(c) => c,
            None => {
                return None;
            },
        },
        None => {
            return None;
        },
    };
    Some(Alert { icon, subicon, position: Coordinate { lat, lon } })
}

/// The alert that `alert_from_fields` reads from the fields `f` of a feed
/// record: category, subcategory, and the number texts of the latitude and
/// the longitude.
pub open spec fn fields_alert(
    f: (Option<Seq<char>>, Option<Seq<char>>, Option<Seq<char>>, Option<Seq<char>>),
) -> Option<AlertView> {
    if f.0 is Some && f.1 is Some && f.2 is Some && number_units(f.2.unwrap()) is Some
        && f.3 is Some && number_units(f.3.unwrap()) is Some {
        Some(
            AlertView {
                icon: f.0.unwrap(),
                subicon: f.1.unwrap(),
                position: Coordinate {
                    lat: number_units(f.2.unwrap()).unwrap(),
                    lon: number_units(f.3.unwrap()).unwrap(),
                },
            },
        )
    } else {
        None
    }
}

/// The alerts read from the records `s`, in record order: one for each
/// well-formed record, none for the others.
pub open spec fn records_alerts(
    s: Seq<(Option<Seq<char>>, Option<Seq<char>>, Option<Seq<char>>, Option<Seq<char>>)>,
) -> Seq<AlertView>
    decreases s.len(),
{
    if s.len() == 0 {
        Seq::empty()
    } else {
        match fields_alert(s.last()) {
            Some(a) => records_alerts(s.drop_last()).push(a),
            None => records_alerts(s.drop_last()),
        }
    }
}

/// The field texts of a sequence of records.
pub open spec fn records_view(
    s: Seq<(Option<String>, Option<String>, Option<String>, Option<String>)>,
) -> Seq<(Option<Seq<char>>, Option<Seq<char>>, Option<Seq<char>>, Option<Seq<char>>)> {
    s.map_values(|f: (Option<String>, Option<String>, Option<String>, Option<String>)| fields_view(f))
}

/// The alerts of the feed records whose fields are `records` (category,
/// subcategory, and number texts of latitude and longitude), in paint order:
/// exactly one alert for each well-formed record, a malformed record skipped,
/// and records at one position in their order.
#[verifier::rlimit(40)]
pub fn collect_alerts(
    records: Vec<(Option<String>, Option<String>, Option<String>, Option<String>)>,
) -> (r: Vec<Alert>)
    ensures
        paint_ordered(views(r@)),
        views(r@).to_multiset() == records_alerts(records_view(records@)).to_multiset(),
        forall|c: Coordinate| #[trigger] at_position(views(r@), c) == at_position(
            records_alerts(records_view(records@)),
            c,
        ),
{
    let ghost all = records@;
    let mut rest = records;
    let mut tidy: Vec<Alert> = Vec::new();
    let ghost mut i: int = 0;
    proof {
        assert(all.take(0) =~= Seq::empty());
        assert(records_view(all.take(0)) =~= Seq::empty());
        assert(all.skip(0) =~= all);
        assert(views(tidy@) =~= Seq::<AlertView>::empty());
    }
    while rest.len() > 0
        invariant
            0 <= i <= all.len(),
            rest@ == all.skip(i),
            views(tidy@) == records_alerts(records_view(all.take(i))),
        decreases rest@.len(),
    {
        let f = rest.remove(0);
        proof {
            assert(f == all[i]);
            assert(all.take(i + 1).drop_last() =~= all.take(i));
            assert(all.take(i + 1).last() == f);
            assert(rest@ =~= all.skip(i + 1));
            assert(records_view(all.take(i + 1)).drop_last() =~= records_view(all.take(i)));
            assert(records_view(all.take(i + 1)).last() == fields_view(f));
        }
        let got = alert_from_fields(f.0, f.1, f.2, f.3);
        match got {
            Some(alert) => {
                proof {
                    assert(fields_alert(fields_view(f)) == Some(alert@));
                    assert(views(tidy@.push(alert)) =~= views(tidy@).push(alert@));
                }
                tidy.push(alert);
            },
            None => {
                assert(fields_alert(fields_view(f)) is None);
            },
        }
        proof {
            i = i + 1;
        }
    }
    proof {
        assert(all.take(i) =~= all);
    }
    sort_alerts(&tidy)
}

/// The fields of the feed record `v`: its `type` and `subtype` strings, and
/// the number texts of the `y` (latitude) and `x` (longitude) members of its
/// `location`.
fn read_fields(v: &Value) -> (r: (Option<String>, Option<String>, Option<String>, Option<String>))
    ensures
        fields_view(r) == record_fields(json_of(*v)),
{
    let icon = text_member(v, "type");
    let subicon = text_member(v, "subtype");
    let (lat, lon) = match member(v, "location") {
        Some(location) => (number_member(location, "y"), number_member(location, "x")),
        None => (None, None),
    };
    (icon, subicon, lat, lon)
}

/// The alerts of the well-formed records of the `alerts` array of the feed
/// document `json`, in paint order (latitude descending, then longitude
/// descending): one alert for each well-formed record, a malformed record
/// left out, records at one position in their order, and no alert for a
/// document without such an array.
pub fn alerts_extract(json: &Value) -> (r: Vec<Alert>)
    ensures
        paint_ordered(views(r@)),
        views(r@).to_multiset() == records_alerts(feed_records(json_of(*json))).to_multiset(),
        forall|c: Coordinate| #[trigger] at_position(views(r@), c) == at_position(
            records_alerts(feed_records(json_of(*json))),
            c,
        ),
{
    let ghost target = feed_records(json_of(*json));
    let mut fields: Vec<(Option<String>, Option<String>, Option<String>, Option<String>)> =
        Vec::new();
    match member(json, "alerts") {
        Some(list) => match list.as_array() {
            Some(records) => {
                let ghost elems = records@.map_values(|e: Value| json_of(e));
                assert(target =~= elems.map_values(|e: Json| record_fields(e)));
                let mut i: usize = 0;
                while i < records.len()
                    invariant
                        i <= records@.len(),
                        elems == records@.map_values(|e: Value| json_of(e)),
                        target == elems.map_values(|e: Json| record_fields(e)),
                        records_view(fields@) == target.take(i as int),
                    decreases records@.len() - i,
                {
                    let f = read_fields(&records[i]);
                    proof {
                        assert(records_view(fields@.push(f)) =~= records_view(fields@).push(
                            fields_view(f),
                        ));
                        assert(target.take(i + 1) =~= target.take(i as int).push(target[i as int]));
                    }
                    fields.push(f);
                    i += 1;
                }
                assert(target.take(records@.len() as int) =~= target);
            },
            None => {
                assert(records_view(fields@) =~= target);
            },
        },
        None => {
            assert(records_view(fields@) =~= target);
        },
    }
    collect_alerts(fields)
}

} // verus!
