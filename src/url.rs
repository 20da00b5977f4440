//! Upstream URL templating: placeholders in a template are replaced by the
//! decimal text of tile indices or of bounding-box coordinates.

use crate::geo::{Plot, DEGREE, UNIT_PLACES};
use crate::tile::XYZ;
use vstd::prelude::*;
use vstd::string::StringExecFns;
use vstd::string::StrSliceExecFns;

verus! {

/// The character of decimal digit `d`.
pub open spec fn digit_char(d: nat) -> char {
    if d == 0 {
        '0'
    } else if d == 1 {
        '1'
    } else if d == 2 {
        '2'
    } else if d == 3 {
        '3'
    } else if d == 4 {
        '4'
    } else if d == 5 {
        '5'
    } else if d == 6 {
        '6'
    } else if d == 7 {
        '7'
    } else if d == 8 {
        '8'
    } else {
        '9'
    }
}

/// Decimal text of `n`, without leading zeros.
pub open spec fn decimal(n: nat) -> Seq<char>
    decreases n,
{
    if n < 10 {
        seq![digit_char(n)]
    } else {
        decimal(n / 10) + seq![digit_char(n % 10)]
    }
}

/// The last `k` decimal digits of `f`, padded with leading zeros.
pub open spec fn padded_digits(f: nat, k: nat) -> Seq<char>
    decreases k,
{
    if k == 0 {
        seq![]
    } else {
        padded_digits(f / 10, (k - 1) as nat) + seq![digit_char(f % 10)]
    }
}

/// `s` without its trailing zeros.
pub open spec fn trim_zeros(s: Seq<char>) -> Seq<char>
    decreases s.len(),
{
    if s.len() > 0 && s.last() == '0' {
        trim_zeros(s.drop_last())
    } else {
        s
    }
}

/// Shortest decimal text of `v` units of 1e-7 degree: a minus sign for a
/// negative value, the whole degrees, and the fractional digits without
/// trailing zeros after a point, the point left out where there are none.
pub open spec fn degrees_text(v: int) -> Seq<char> {
    let a = if v < 0 {
        -v
    } else {
        v
    };
    let sign = if v < 0 {
        seq!['-']
    } else {
        seq![]
    };
    let frac = trim_zeros(padded_digits((a % DEGREE as int) as nat, UNIT_PLACES as nat));
    sign + decimal((a / DEGREE as int) as nat) + if frac.len() == 0 {
        seq![]
    } else {
        seq!['.'] + frac
    }
}

fn digit_text(d: u64) -> (r: &'static str)
    requires
        d < 10,
    ensures
        r@ == seq![digit_char(d as nat)],
{
    proof {
        reveal_strlit("0");
        reveal_strlit("1");
        reveal_strlit("2");
        reveal_strlit("3");
        reveal_strlit("4");
        reveal_strlit("5");
        reveal_strlit("6");
        reveal_strlit("7");
        reveal_strlit("8");
        reveal_strlit("9");
    }
    let r = if d == 0 {
        "0"
    } else if d == 1 {
        "1"
    } else if d == 2 {
        "2"
    } else if d == 3 {
        "3"
    } else if d == 4 {
        "4"
    } else if d == 5 {
        "5"
    } else if d == 6 {
        "6"
    } else if d == 7 {
        "7"
    } else if d == 8 {
        "8"
    } else {
        "9"
    };
    assert(r@ =~= seq![digit_char(d as nat)]);
    r
}

/// Decimal text of `n`.
pub fn decimal_text(n: u64) -> (r: String)
    ensures
        r@ == decimal(n as nat),
    decreases n,
{
    if n < 10 {
        String::from_str(digit_text(n))
    } else {
        let mut s = decimal_text(n / 10);
        s.append(digit_text(n % 10));
        s
    }
}

fn padded_text(f: u64, k: u64) -> (r: String)
    ensures
        r@ == padded_digits(f as nat, k as nat),
    decreases k,
{
    if k == 0 {
        String::new()
    } else {
        let mut s = padded_text(f / 10, k - 1);
        s.append(digit_text(f % 10));
        s
    }
}

proof fn lemma_last_digit_zero(f: nat, k: nat)
    requires
        k > 0,
        f % 10 == 0,
    ensures
        trim_zeros(padded_digits(f, k)) == trim_zeros(padded_digits(f / 10, (k - 1) as nat)),
{
    let s = padded_digits(f, k);
    assert(s.drop_last() =~= padded_digits(f / 10, (k - 1) as nat));
}

/// Decimal text of a coordinate value held in units of 1e-7 degree.
#[verifier::rlimit(40)]
pub fn degrees_to_text(v: i64) -> (r: String)
    ensures
        r@ == degrees_text(v as int),
{
    let a: u64 = if v < 0 {
        (-(v as i128)) as u64
    } else {
        v as u64
    };
    let whole: u64 = a / DEGREE as u64;
    let mut f: u64 = a % DEGREE as u64;
    let mut k: u64 = UNIT_PLACES;
    while k > 0 && f % 10 == 0
        invariant
            k <= UNIT_PLACES,
            trim_zeros(padded_digits(f as nat, k as nat)) == trim_zeros(
                padded_digits((a % DEGREE as u64) as nat, UNIT_PLACES as nat),
            ),
        decreases k,
    {
        proof {
            lemma_last_digit_zero(f as nat, k as nat);
        }
        f = f / 10;
        k = k - 1;
    }
    let frac = padded_text(f, k);
    proof {
        if k > 0 {
            assert(frac@.last() == digit_char(f as nat % 10));
        }
    }
    let mut out = if v < 0 {
        String::from_str("-")
    } else {
        String::new()
    };
    proof {
        reveal_strlit("-");
        reveal_strlit(".");
    }
    out.append(decimal_text(whole).as_str());
    if k > 0 {
        out.append(".");
        out.append(frac.as_str());
    }
    proof {
        assert(trim_zeros(frac@) == frac@);
        assert(out@ =~= degrees_text(v as int));
    }
    out
}

/// `s` with every occurrence of the non-empty `pat`, scanned from the left
/// without overlaps, replaced by `with`.
pub open spec fn replaced(s: Seq<char>, pat: Seq<char>, with: Seq<char>) -> Seq<char>
    decreases s.len(),
{
    if pat.len() == 0 || s.len() < pat.len() {
        s
    } else if s.take(pat.len() as int) == pat {
        with + replaced(s.skip(pat.len() as int), pat, with)
    } else {
        seq![s[0]] + replaced(s.skip(1), pat, with)
    }
}

/// Whether `pat` occurs in `s` at character position `i`.
fn occurs_at(s: &str, pat: &str, i: usize) -> (r: bool)
    requires
        i + pat@.len() <= s@.len(),
    ensures
        r == (s@.subrange(i as int, i + pat@.len()) == pat@),
{
    let n = s.unicode_len();
    let m = pat.unicode_len();
    let mut j: usize = 0;
    while j < m
        invariant
            m == pat@.len(),
            n == s@.len(),
            i + m <= n,
            j <= m,
            forall|t: int| 0 <= t < j ==> s@[i + t] == pat@[t],
        decreases m - j,
    {
        if s.get_char(i + j) != pat.get_char(j) {
            assert(s@.subrange(i as int, i + m)[j as int] != pat@[j as int]);
            return false;
        }
        j += 1;
    }
    assert(s@.subrange(i as int, i + m) =~= pat@);
    true
}

/// `s` with every occurrence of `pat` replaced by `with`.
#[verifier::rlimit(40)]
pub fn replace_text(s: &str, pat: &str, with: &str) -> (r: String)
    requires
        pat@.len() > 0,
    ensures
        r@ == replaced(s@, pat@, with@),
{
    let n = s.unicode_len();
    let m = pat.unicode_len();
    let mut out = String::new();
    let mut i: usize = 0;
    assert(s@.skip(0) =~= s@);
    assert(out@ + s@ =~= s@);
    while i < n
        invariant
            n == s@.len(),
            m == pat@.len() > 0,
            i <= n,
            replaced(s@, pat@, with@) == out@ + replaced(s@.skip(i as int), pat@, with@),
        decreases n - i,
    {
        let ghost rest = s@.skip(i as int);
        if m <= n - i && occurs_at(s, pat, i) {
            proof {
                assert(rest.take(m as int) =~= s@.subrange(i as int, i + m));
                assert(rest.skip(m as int) =~= s@.skip(i + m));
            }
            out.append(with);
            i += m;
        } else {
            proof {
                if m <= n - i {
                    assert(rest.take(m as int) =~= s@.subrange(i as int, i + m));
                    assert(rest.skip(1) =~= s@.skip(i + 1));
                } else {
                    assert(rest =~= seq![rest[0]] + s@.skip(i + 1));
                    assert(s@.skip(i + 1).len() < m);
                }
            }
            out.append(s.substring_char(i, i + 1));
            proof {
                assert(s@.subrange(i as int, i + 1) =~= seq![rest[0]]);
            }
            i += 1;
        }
    }
    proof {
        assert(s@.skip(n as int) =~= Seq::<char>::empty());
        assert(out@ + Seq::<char>::empty() =~= out@);
    }
    out
}

/// `input` with `{x}`, `{y}` and `{z}` replaced by the decimal indices of
/// `position`.
pub fn replace_url(input: &str, position: &XYZ) -> (r: String)
    ensures
        r@ == replaced(
            replaced(
                replaced(input@, "{x}"@, decimal(position.x as nat)),
                "{y}"@,
                decimal(position.y as nat),
            ),
            "{z}"@,
            decimal(position.z as nat),
        ),
{
    proof {
        reveal_strlit("{x}");
        reveal_strlit("{y}");
        reveal_strlit("{z}");
    }
    let x = decimal_text(position.x as u64);
    let y = decimal_text(position.y as u64);
    let z = decimal_text(position.z as u64);
    let a = replace_text(input, "{x}", x.as_str());
    let b = replace_text(a.as_str(), "{y}", y.as_str());
    replace_text(b.as_str(), "{z}", z.as_str())
}

/// `input` with `{top}`, `{left}`, `{bottom}` and `{right}` replaced by the
/// decimal degrees of the north edge, west edge, south edge and east edge of
/// `position`.
pub fn replace_url_waz(input: &str, position: &Plot) -> (r: String)
    ensures
        r@ == replaced(
            replaced(
                replaced(
                    replaced(input@, "{top}"@, degrees_text(position.top.lat as int)),
                    "{left}"@,
                    degrees_text(position.top.lon as int),
                ),
                "{bottom}"@,
                degrees_text(position.bottom.lat as int),
            ),
            "{right}"@,
            degrees_text(position.bottom.lon as int),
        ),
{
    proof {
        reveal_strlit("{top}");
        reveal_strlit("{left}");
        reveal_strlit("{bottom}");
        reveal_strlit("{right}");
    }
    let top = degrees_to_text(position.top.lat);
    let left = degrees_to_text(position.top.lon);
    let bottom = degrees_to_text(position.bottom.lat);
    let right = degrees_to_text(position.bottom.lon);
    let a = replace_text(input, "{top}", top.as_str());
    let b = replace_text(a.as_str(), "{left}", left.as_str());
    let c = replace_text(b.as_str(), "{bottom}", bottom.as_str());
    replace_text(c.as_str(), "{right}", right.as_str())
}

} // verus!
