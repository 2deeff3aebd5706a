use vstd::prelude::*;
use vstd::string::StringExecFns;
use vstd::arithmetic::div_mod::{lemma_div_is_ordered, lemma_div_multiples_vanish,
    lemma_fundamental_div_mod, lemma_fundamental_div_mod_converse_div};

verus! {

/// How a numeric quantity is rendered: an exact two-decimal figure, or a
/// rounded English-word approximation.
#[derive(Clone, Copy, Debug, PartialEq, Eq, Structural)]
pub enum NumericMode {
    Precise,
    Humanized,
}

/// A quantity that is not representable (not finite, or negative) cannot be
/// formatted; callers recover by substituting a placeholder.
#[derive(Clone, Copy, Debug, PartialEq, Eq, Structural)]
pub struct FormatError;

/// The character for one decimal digit.
pub open spec fn digit_char(d: nat) -> char {
    if d == 0 {
        '0'
    } else if d == 1 {
        '1'
    } else if d == 2 {
        '2'
    } else if d == 3 {
        '3'
    } else if d == 4 {
        '4'
    } else if d == 5 {
        '5'
    } else if d == 6 {
        '6'
    } else if d == 7 {
        '7'
    } else if d == 8 {
        '8'
    } else {
        '9'
    }
}

/// The decimal digit string of `n`, without leading zeros (except for 0 itself).
pub open spec fn dec_str(n: nat) -> Seq<char>
    decreases n,
{
    if n < 10 {
        seq![digit_char(n)]
    } else {
        dec_str(n / 10).push(digit_char(n % 10))
    }
}

/// Quantities are carried in hundredths of a unit; the precise rendering is
/// the whole part, a point, and exactly two decimal digits.
pub open spec fn precise_str(centi: nat) -> Seq<char> {
    dec_str(centi / 100) + seq!['.', digit_char((centi / 10) % 10), digit_char(centi % 10)]
}

/// 10 to the power `k`.
pub open spec fn pow10(k: nat) -> nat
    decreases k,
{
    if k == 0 {
        1
    } else {
        10 * pow10((k - 1) as nat)
    }
}

/// How many times the humanizing rule divides by ten: while the exact
/// quantity still exceeds 99 whole units, that is, the least `k` with
/// `c <= 9900 * pow10(k)` for a quantity of `c` hundredths. The recursion
/// carries the ceiling of each division so that no fraction is lost.
pub open spec fn hum_divisions(c: nat) -> nat
    decreases c,
{
    if c <= 9900 {
        0
    } else {
        1 + hum_divisions((c + 9) / 10)
    }
}

/// The rounded magnitude the humanizing rule speaks aloud: divide by ten
/// until at most 99 units remain, round the exact quotient to the nearest
/// unit, and scale back up.
pub open spec fn hum_spoken(c: nat) -> nat {
    let k = hum_divisions(c);
    ((c + 50 * pow10(k)) / (100 * pow10(k))) * pow10(k)
}

/// The name the outside word converter gives to a number; it depends on the
/// number alone.
pub uninterp spec fn english_of(n: int) -> Seq<char>;

/// Relies on english_numbers::convert, with spaces, conjunctions and dashes
/// switched on: the spelled-out English name of the number, a function of the
/// number alone.
#[verifier::external_body]
fn english_words(n: i64) -> (r: String)
    requires
        0 <= n,
    ensures
        r@ == english_of(n as int),
{
    let fmt = english_numbers::Formatting {
        title_case: false,
        spaces: true,
        conjunctions: true,
        commas: false,
        dashes: true,
    };
    english_numbers::convert(n, fmt)
}

/// The humanized rendering: "About " followed by the English name of the
/// rounded magnitude.
pub open spec fn humanized_str(c: nat) -> Seq<char> {
    "About "@ + english_of(hum_spoken(c) as int)
}

/// What `humanize` returns for a quantity of `centi` hundredths in each mode.
pub open spec fn humanize_spec(centi: nat, mode: NumericMode) -> Seq<char> {
    match mode {
        NumericMode::Precise => precise_str(centi),
        NumericMode::Humanized => humanized_str(centi),
    }
}

fn digit_str(d: u64) -> (r: &'static str)
    requires
        d < 10,
    ensures
        r@ == seq![digit_char(d as nat)],
{
    let s: &'static str = if d == 0 {
        "0"
    } else if d == 1 {
        "1"
    } else if d == 2 {
        "2"
    } else if d == 3 {
        "3"
    } else if d == 4 {
        "4"
    } else if d == 5 {
        "5"
    } else if d == 6 {
        "6"
    } else if d == 7 {
        "7"
    } else if d == 8 {
        "8"
    } else {
        "9"
    };
    proof {
        reveal_strlit("0");
        reveal_strlit("1");
        reveal_strlit("2");
        reveal_strlit("3");
        reveal_strlit("4");
        reveal_strlit("5");
        reveal_strlit("6");
        reveal_strlit("7");
        reveal_strlit("8");
        reveal_strlit("9");
        assert(s@ =~= seq![digit_char(d as nat)]);
    }
    s
}

/// The decimal digit string of `n`.
pub fn u64_to_dec(n: u64) -> (r: String)
    ensures
        r@ == dec_str(n as nat),
    decreases n,
{
    if n < 10 {
        let mut s = String::new();
        s.append(digit_str(n));
        proof {
            assert(s@ =~= dec_str(n as nat));
        }
        s
    } else {
        let mut s = u64_to_dec(n / 10);
        s.append(digit_str(n % 10));
        proof {
            assert(s@ =~= dec_str(n as nat));
        }
        s
    }
}

/// Format a quantity of `centi` hundredths with exactly two decimal places.
pub fn format_precise(centi: u64) -> (r: String)
    ensures
        r@ == precise_str(centi as nat),
{
    let mut s = u64_to_dec(centi / 100);
    s.append(".");
    s.append(digit_str((centi / 10) % 10));
    s.append(digit_str(centi % 10));
    proof {
        reveal_strlit(".");
        assert(s@ =~= precise_str(centi as nat));
    }
    s
}

proof fn lemma_pow10_pos(k: nat)
    ensures
        pow10(k) >= 1,
    decreases k,
{
    if k > 0 {
        lemma_pow10_pos((k - 1) as nat);
    }
}

proof fn lemma_pow10_mono(a: nat, b: nat)
    requires
        a <= b,
    ensures
        pow10(a) <= pow10(b),
    decreases b,
{
    if a < b {
        lemma_pow10_mono(a, (b - 1) as nat);
        lemma_pow10_pos((b - 1) as nat);
    }
}

/// `hum_divisions(c)` divisions bring the quantity to at most 99 units, and
/// one division fewer would not.
proof fn lemma_hum_divisions_least(c: nat)
    ensures
        c <= 9900 * pow10(hum_divisions(c)),
        hum_divisions(c) > 0 ==> c > 9900 * pow10((hum_divisions(c) - 1) as nat),
    decreases c,
{
    if c > 9900 {
        let c2 = ((c + 9) / 10) as nat;
        lemma_hum_divisions_least(c2);
        let k2 = hum_divisions(c2);
        lemma_fundamental_div_mod((c + 9) as int, 10);
        assert(c <= 10 * c2);
        assert(pow10(k2 + 1) == 10 * pow10(k2));
        assert(hum_divisions(c) == k2 + 1);
        assert(10 * c2 <= 10 * (9900 * pow10(k2)));
        assert(10 * (9900 * pow10(k2)) == 9900 * (10 * pow10(k2))) by (nonlinear_arith);
        if k2 > 0 {
            let t = (9900 * pow10((k2 - 1) as nat)) as nat;
            assert(c2 >= t + 1);
            assert(10 * c2 <= c + 9);
            assert(c >= 10 * t + 1);
            assert(10 * t == 9900 * pow10(k2)) by (nonlinear_arith)
                requires
                    t == 9900 * pow10((k2 - 1) as nat),
                    pow10(k2) == 10 * pow10((k2 - 1) as nat),
            ;
        }
    }
}

/// The division count is the unique `k` that brings the quantity to at most
/// 99 units while `k - 1` divisions do not.
proof fn lemma_hum_divisions_unique(c: nat, k: nat)
    requires
        c <= 9900 * pow10(k),
        k > 0 ==> c > 9900 * pow10((k - 1) as nat),
    ensures
        hum_divisions(c) == k,
{
    let d = hum_divisions(c);
    lemma_hum_divisions_least(c);
    if d < k {
        lemma_pow10_mono(d, (k - 1) as nat);
        assert(9900 * pow10(d) <= 9900 * pow10((k - 1) as nat));
        assert(false);
    }
    if d > k {
        lemma_pow10_mono(k, (d - 1) as nat);
        assert(9900 * pow10(k) <= 9900 * pow10((d - 1) as nat));
        assert(false);
    }
}

/// Render a quantity of `centi` hundredths of a unit in the requested mode:
/// exact in Precise mode, and "About " plus the English name of the rounded
/// magnitude in Humanized mode.
pub fn humanize(centi: u64, mode: NumericMode) -> (r: String)
    ensures
        r@ == humanize_spec(centi as nat, mode),
{
    match mode {
        NumericMode::Precise => format_precise(centi),
        NumericMode::Humanized => {
            let ghost c = centi as nat;
            let mut k: u64 = 0;
            let mut t: u128 = 9900;
            proof {
                assert(pow10(0) == 1);
            }
            while (centi as u128) > t
                invariant
                    k <= 20,
                    t == 9900 * pow10(k as nat),
                    k > 0 ==> c > 9900 * pow10((k - 1) as nat),
                    c == centi as nat,
                decreases 20 - k,
            {
                proof {
                    let kk = k as nat;
                    lemma_pow10_pos(kk);
                    assert(pow10(kk + 1) == 10 * pow10(kk));
                    assert(10 * (9900 * pow10(kk)) == 9900 * (10 * pow10(kk))) by (nonlinear_arith);
                    // the exponent cannot run past the digit count of a u64
                    assert(k < 20) by {
                        if k >= 20 {
                            lemma_pow10_mono(20, kk);
                            assert(pow10(20) == 100000000000000000000) by {
                                reveal_with_fuel(pow10, 21);
                            }
                            assert(false);
                        }
                    }
                }
                t = t * 10;
                k = k + 1;
            }
            proof {
                lemma_hum_divisions_unique(c, k as nat);
            }
            let p: u64 = (t / 9900) as u64;
            proof {
                let kn = k as nat;
                lemma_pow10_pos(kn);
                lemma_div_multiples_vanish(pow10(kn) as int, 9900);
                assert(t / 9900 == pow10(kn));
                if k > 0 {
                    // one division fewer leaves more than 99 units, which
                    // bounds the scale well inside a u64
                    let q = pow10((k - 1) as nat);
                    lemma_pow10_pos((k - 1) as nat);
                    assert(9900 * q < centi);
                    assert(q <= centi as nat / 9900) by (nonlinear_arith)
                        requires
                            9900 * q <= centi,
                    ;
                    assert(pow10(kn) == 10 * q);
                    assert(10 * q <= 10 * (0xffff_ffff_ffff_ffffu64 as nat / 9900));
                }
            }
            proof {
                let kn = k as nat;
                let pp = pow10(kn) as int;
                assert(c + 50 * pow10(kn) <= 9950 * pow10(kn));
                assert(9950 * pp == 99 * (100 * pp) + 50 * pp) by (nonlinear_arith);
                assert(0 <= 50 * pp < 100 * pp);
                lemma_fundamental_div_mod_converse_div(9950 * pp, 100 * pp, 99, 50 * pp);
                lemma_div_is_ordered((c + 50 * pow10(kn)) as int, 9950 * pp, 100 * pp);
                assert((c + 50 * pow10(kn)) / (100 * pow10(kn)) <= 99);
            }
            let rounded: u64 = (((centi as u128) + 50 * (p as u128)) / (100 * (p as u128))) as u64;
            proof {
                assert(rounded <= 99);
                if k > 0 {
                    let q = pow10((k - 1) as nat);
                    lemma_pow10_pos((k - 1) as nat);
                    assert(rounded * p <= 99 * (10 * q)) by (nonlinear_arith)
                        requires
                            rounded <= 99,
                            p == 10 * q,
                            q >= 1,
                    ;
                    assert(99 * (10 * q) == 990 * q) by (nonlinear_arith);
                    assert(990 * q <= 9900 * q) by (nonlinear_arith)
                        requires
                            q >= 1,
                    ;
                    assert(rounded * p <= centi);
                    assert(990 * q <= 990 * (0xffff_ffff_ffff_ffffu64 / 9900)) by (nonlinear_arith)
                        requires
                            9900 * q <= 0xffff_ffff_ffff_ffffu64,
                            q >= 1,
                    ;
                    assert(990 * (0xffff_ffff_ffff_ffffu64 as nat / 9900)
                        < 0x7fff_ffff_ffff_ffffu64);
                } else {
                    assert(p == pow10(0));
                    assert(p == 1);
                    assert(rounded * p <= 99) by (nonlinear_arith)
                        requires
                            rounded <= 99,
                            p == 1,
                    ;
                }
            }
            let spoken = rounded * p;
            let words = english_words(spoken as i64);
            let mut s = String::new();
            s.append("About ");
            s.append(words.as_str());
            proof {
                assert(spoken as nat == hum_spoken(c));
                assert(s@ =~= humanized_str(c));
            }
            s
        },
    }
}

/// Render an optional quantity: a missing value stands for a degenerate
/// number (not finite, or negative) and fails with a `FormatError`; a present
/// value is rendered by `humanize`.
pub fn humanize_checked(q: Option<u64>, mode: NumericMode) -> (r: Result<String, FormatError>)
    ensures
        r is Ok <==> q is Some,
        q matches Some(c) ==> (r matches Ok(s) && s@ == humanize_spec(c as nat, mode)),
{
    match q {
        Some(c) => Ok(humanize(c, mode)),
        None => Err(FormatError),
    }
}

} // verus!
