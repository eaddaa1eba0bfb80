//! Rendering literal values back to their minimal literal surface, and the
//! round-trip law: a rendered literal parses back to the same value under
//! value equality.

use vstd::prelude::*;

use crate::chars::{
    all_digits, dec_str, digits_val, fmt_u64, lemma_dec_str_digits, lemma_digits_val_bound,
    pow10, to_chars,
};
use crate::dec::{
    dec_lexeme_canon, dec_mant_val, dec_wf, lemma_dec_canon_fixed, lemma_dec_canon_scale,
    lemma_digits_val_concat, Dec, DEC_MANT_MAX,
};
use crate::errors::JError;
use crate::j::J;
use crate::syntax::Rule;
use crate::walker::{literal_matches, literal_ok};

verus! {

broadcast use vstd::std_specs::vec::group_vec_axioms, vstd::seq::group_seq_axioms;

/// The literal rule a scalar value renders under.
pub open spec fn rule_of_j(j: J) -> Rule {
    match j {
        J::Boolean(_) => Rule::Boolean,
        J::I64(_) => Rule::Integer,
        J::F64(_) => Rule::Decimal,
        J::Time(_) => Rule::Time,
        J::Date(_) => Rule::Date,
        J::Symbol(_) => Rule::Enum,
        J::Str(_) => Rule::Str,
        J::Null => Rule::NoneLit,
        _ => Rule::Program,
    }
}

/// Value equality of scalar values: structural, with text payloads compared
/// by their characters.
pub open spec fn j_value_eq(a: J, b: J) -> bool {
    match (a, b) {
        (J::Symbol(t1), J::Symbol(t2)) => t1@ == t2@,
        (J::Str(t1), J::Str(t2)) => t1@ == t2@,
        _ => a == b,
    }
}

/// The literal value a rule and text pin down is unique up to value
/// equality: parsing a rendered literal can only give the value back.
/// Together with the ensures of `render_literal` and `parse_j` this is the
/// round-trip law for boolean, integer, decimal, date, time, symbol, string
/// and absent literals.
pub proof fn lemma_literal_round_trip(j: J, s: Seq<char>, j2: J)
    requires
        literal_matches(rule_of_j(j), s, j),
        literal_matches(rule_of_j(j), s, j2),
    ensures
        j_value_eq(j, j2),
{
}

/// Decimal formatting of an unsigned 128-bit number.
pub fn fmt_u128(n: u128) -> (r: String)
    ensures
        r@ == dec_str(n as nat),
    decreases n,
{
    if n < 10 {
        fmt_u64(n as u64)
    } else {
        let mut r = fmt_u128(n / 10);
        let d = fmt_u64((n % 10) as u64);
        r.append(d.as_str());
        assert(r@ =~= dec_str(n as nat));
        r
    }
}

/// A run of `n` zero digits.
fn zeros(n: usize) -> (r: String)
    ensures
        r@ == Seq::new(n as nat, |i: int| '0'),
{
    proof {
        reveal_strlit("0");
    }
    let mut r = String::new();
    let mut i: usize = 0;
    while i < n
        invariant
            i <= n,
            r@ =~= Seq::new(i as nat, |k: int| '0'),
        decreases n - i,
    {
        r.append("0");
        proof {
            reveal_strlit("0");
        }
        assert(r@ =~= Seq::new((i + 1) as nat, |k: int| '0'));
        i = i + 1;
    }
    assert(r@ =~= Seq::new(n as nat, |i: int| '0'));
    r
}

proof fn lemma_zeros_digits(n: nat)
    ensures
        all_digits(Seq::new(n, |i: int| '0')),
        digits_val(Seq::new(n, |i: int| '0')) == 0,
    decreases n,
{
    if n > 0 {
        lemma_zeros_digits((n - 1) as nat);
        let s = Seq::new(n, |i: int| '0');
        assert(s.drop_last() =~= Seq::new((n - 1) as nat, |i: int| '0'));
    }
}

/// A mantissa of `l` digits is at least ten to the `l - 1`.
proof fn lemma_dec_str_lower(n: nat)
    ensures
        n >= pow10((dec_str(n).len() - 1) as nat) || n == 0,
    decreases n,
{
    if n >= 10 {
        lemma_dec_str_lower(n / 10);
        let l = dec_str(n).len();
        assert(dec_str(n) == dec_str(n / 10).push(crate::chars::digit_char(n % 10)));
        assert(dec_str(n / 10).len() == l - 1);
        if n / 10 == 0 {
        } else {
            assert(n / 10 >= pow10((l - 2) as nat));
            assert(pow10((l - 1) as nat) == 10 * pow10((l - 2) as nat));
            assert(n >= (n / 10) * 10) by (nonlinear_arith);
            assert((n / 10) * 10 >= pow10((l - 2) as nat) * 10) by (nonlinear_arith)
                requires
                    n / 10 >= pow10((l - 2) as nat),
            ;
        }
    }
}

/// The values the renderer accepts: booleans, integers, absent values,
/// dates and times in range, canonical decimals whose rendering stays within
/// 38 significant digits, and symbol or string text without its own
/// delimiter. Datetime, timestamp, duration and collection values are not
/// rendered.
pub open spec fn renderable(j: J) -> bool {
    match j {
        J::Boolean(_) | J::I64(_) | J::Null => true,
        J::Symbol(t) => forall|i: int| 0 <= i < t@.len() ==> t@[i] != '`',
        J::Str(t) => forall|i: int| 0 <= i < t@.len() ==> t@[i] != '"',
        J::F64(d) => crate::dec::dec_wf(d) && d.mant <= DEC_MANT_MAX && -9_999 <= d.exp10 <= 9_999
            && (d.exp10 >= 0 ==> dec_str(d.mant as nat).len() + d.exp10 <= 37),
        J::Time(v) => 0 <= v <= 86_399_999_999_999,
        J::Date(v) => -719_528 <= v && v + 719_163 <= crate::temporal::days_before_year(10_000),
        _ => false,
    }
}

/// Renders a scalar literal value back to its minimal literal surface. Every
/// renderable value renders; a rendered text conforms to its literal rule
/// and parses back to the same value.
pub fn render_literal(j: &J) -> (r: Result<String, JError>)
    ensures
        r matches Ok(s) ==> literal_ok(rule_of_j(*j), s@) && literal_matches(rule_of_j(*j), s@, *j),
        renderable(*j) ==> r is Ok,
{
    match j {
        J::Boolean(b) => {
            proof {
                reveal_strlit("1b");
                reveal_strlit("0b");
                assert("1b"@[0] == '1' && "0b"@[0] == '0');
            }
            if *b {
                Ok("1b".to_owned())
            } else {
                Ok("0b".to_owned())
            }
        },
        J::I64(v) => {
            let mag: u64 = if *v >= 0 {
                *v as u64
            } else {
                (-(*v as i128)) as u64
            };
            let digits = fmt_u64(mag);
            proof {
                lemma_dec_str_digits(mag as nat);
            }
            if *v < 0 {
                let mut s = String::new();
                s.append("-");
                s.append(digits.as_str());
                proof {
                    reveal_strlit("-");
                    assert(s@ =~= seq!['-'] + dec_str(mag as nat));
                    assert(crate::chars::int_digits(s@) =~= dec_str(mag as nat));
                }
                Ok(s)
            } else {
                proof {
                    assert(crate::chars::int_digits(digits@) =~= dec_str(mag as nat));
                    if digits@[0] == '-' {
                        assert(crate::chars::is_digit(dec_str(mag as nat)[0]));
                        assert(false);
                    }
                }
                Ok(digits)
            }
        },
        J::F64(d) => render_dec(d),
        J::Time(v) => render_time(*v),
        J::Date(v) => render_date(*v),
        J::Symbol(t) => {
            let v = to_chars(t.as_str());
            if !crate::classify::no_char_in(&v, 0, v.len(), '`') {
                return Err(JError::Error("symbol text holds a back-tick".to_owned()));
            }
            let mut s = String::new();
            s.append("`");
            s.append(t.as_str());
            s.append("`");
            proof {
                reveal_strlit("`");
                assert(s@ =~= seq!['`'] + t@ + seq!['`']);
                assert(s@[0] == '`');
                assert(crate::series::sym_text(s@) =~= t@);
            }
            Ok(s)
        },
        J::Str(t) => {
            let v = to_chars(t.as_str());
            if !crate::classify::no_char_in(&v, 0, v.len(), '"') {
                return Err(JError::Error("string text holds a quote".to_owned()));
            }
            let mut s = String::new();
            s.append("\u{22}");
            s.append(t.as_str());
            s.append("\u{22}");
            proof {
                reveal_strlit("\u{22}");
                assert(s@ =~= seq!['"'] + t@ + seq!['"']);
                assert(crate::series::str_text(s@) =~= t@);
            }
            Ok(s)
        },
        J::Null => {
            Ok("none".to_owned())
        },
        _ => Err(JError::Error("not a scalar literal".to_owned())),
    }
}

/// Renders a canonical decimal: non-negative exponents append zeros and a
/// `.0` fraction, negative ones place the dot inside or pad with leading
/// zeros.
fn render_dec(d: &Dec) -> (r: Result<String, JError>)
    ensures
        r matches Ok(s) ==> literal_ok(Rule::Decimal, s@) && literal_matches(
            Rule::Decimal,
            s@,
            J::F64(*d),
        ),
        renderable(J::F64(*d)) ==> r is Ok,
{
    if !(d.mant <= DEC_MANT_MAX && -9_999 <= d.exp10 && d.exp10 <= 9_999) {
        return Err(JError::Error("decimal out of the renderable range".to_owned()));
    }
    // refuse a value that is not canonical
    if d.mant == 0 && (d.neg || d.exp10 != 0) {
        return Err(JError::Error("decimal not canonical".to_owned()));
    }
    if d.mant > 0 && d.mant % 10 == 0 {
        return Err(JError::Error("decimal not canonical".to_owned()));
    }
    proof {
        lemma_dec_canon_fixed(*d);
    }
    let digits = fmt_u128(d.mant);
    let dv = to_chars(digits.as_str());
    let dlen = dv.len();
    proof {
        lemma_dec_str_digits(d.mant as nat);
    }
    if d.exp10 >= 0 {
        render_dec_scaled(d, &digits, dlen)
    } else {
        let k = (-(d.exp10 as i64)) as usize;
        if dlen > k {
            render_dec_inner_dot(d, &digits, dlen, k)
        } else {
            render_dec_padded(d, &digits, dlen, k)
        }
    }
}

spec fn dec_renderable(d: Dec) -> bool {
    &&& d.mant <= DEC_MANT_MAX
    &&& -9_999 <= d.exp10 <= 9_999
    &&& dec_wf(d)
}

/// A non-negative exponent: the mantissa digits, the exponent's zeros and a
/// `.0` fraction.
#[verifier::rlimit(100)]
#[verifier::spinoff_prover]
fn render_dec_scaled(d: &Dec, digits: &String, dlen: usize) -> (r: Result<String, JError>)
    requires
        dec_renderable(*d),
        d.exp10 >= 0,
        digits@ == dec_str(d.mant as nat),
        dlen == digits@.len(),
    ensures
        r matches Ok(s) ==> literal_ok(Rule::Decimal, s@) && literal_matches(
            Rule::Decimal,
            s@,
            J::F64(*d),
        ),
        r is Err ==> dec_str(d.mant as nat).len() + d.exp10 > 37,
{
    proof {
        lemma_dec_str_digits(d.mant as nat);
        lemma_dec_canon_fixed(*d);
    }
    let e = d.exp10 as usize;
    if e > 38 {
        return Err(JError::Error("decimal out of the renderable range".to_owned()));
    }
    if e > 37 || dlen > 37 - e {
        return Err(JError::Error("decimal out of the renderable range".to_owned()));
    }
    let z = zeros(e);
    let mut s = String::new();
    if d.neg {
        s.append("-");
    }
    s.append(digits.as_str());
    s.append(z.as_str());
    s.append(".0");
    proof {
        reveal_strlit("-");
        reveal_strlit(".0");
        reveal_strlit(".");
        reveal_strlit("0");
        let zz = Seq::new(e as nat, |i: int| '0');
        lemma_zeros_digits(e as nat);
        let body = if d.neg {
            s@.subrange(1, s@.len() as int)
        } else {
            s@
        };
        assert(body =~= dec_str(d.mant as nat) + zz + seq!['.', '0']);
        let ip = dec_str(d.mant as nat) + zz;
        assert(all_digits(ip)) by {
            assert(forall|q: int|
                0 <= q < dec_str(d.mant as nat).len() ==> #[trigger] ip[q] == dec_str(
                    d.mant as nat,
                )[q]);
            assert(forall|q: int|
                dec_str(d.mant as nat).len() <= q < ip.len() ==> #[trigger] ip[q] == zz[q
                    - dec_str(d.mant as nat).len()]);
        }
        assert(body =~= ip + seq!['.'] + seq!['0']);
        assert(crate::dec::dec_body(s@) =~= body);
        lemma_render_dec_shape(s@, body, ip, seq!['0'], d.neg);
        lemma_digits_val_concat(dec_str(d.mant as nat), zz);
        assert(digits_val(ip) == d.mant as nat * pow10(e as nat));
        lemma_digits_val_concat(ip, seq!['0']);
        assert(seq!['0'][0] == '0' && seq!['0'].last() == '0' && seq!['0'].len() == 1);
        assert(crate::chars::is_digit('0') && crate::chars::digit_val('0') == 0);
        assert(digits_val(seq!['0']) == 0) by {
            assert(seq!['0'].drop_last() =~= Seq::<char>::empty());
            assert(digits_val(Seq::<char>::empty()) == 0);
            assert(seq!['0'].last() == '0');
            assert(crate::chars::digit_val('0') == 0);
        }
        assert(all_digits(seq!['0']));
        assert(pow10(1) == 10) by {
            reveal_with_fuel(pow10, 2);
        }
        assert(dec_mant_val(s@) == digits_val(ip + seq!['0']));
        assert(digits_val(ip + seq!['0']) == digits_val(ip) * 10);
        assert(dec_mant_val(s@) == d.mant as nat * pow10(e as nat) * 10);
        assert(d.mant as nat * pow10(e as nat) * 10 == d.mant as nat * pow10((e + 1) as nat))
            by (nonlinear_arith)
            requires
                pow10((e + 1) as nat) == 10 * pow10(e as nat),
        ;
        assert(all_digits(ip + seq!['0'])) by {
            assert(forall|q: int|
                0 <= q < ip.len() ==> #[trigger] (ip + seq!['0'])[q] == ip[q]);
            assert((ip + seq!['0'])[ip.len() as int] == '0');
        }
        lemma_digits_val_bound(ip + seq!['0']);
        assert((ip + seq!['0']).len() == dlen + e + 1 <= 38);
        crate::temporal::lemma_pow10_le((ip.len() + 1) as nat, 38nat);
        assert(pow10(38) == DEC_MANT_MAX as nat + 1) by {
            reveal_with_fuel(pow10, 39);
        }
        assert(dec_mant_val(s@) <= DEC_MANT_MAX);
        lemma_dec_canon_scale(d.neg, d.mant as nat, d.exp10 as int, (e + 1) as nat);
        assert(dec_lexeme_canon(s@) == *d);
    }
    Ok(s)
}

/// A negative exponent shorter than the digit run: the dot goes inside.
#[verifier::rlimit(100)]
#[verifier::spinoff_prover]
fn render_dec_inner_dot(d: &Dec, digits: &String, dlen: usize, k: usize) -> (r: Result<
    String,
    JError,
>)
    requires
        dec_renderable(*d),
        d.exp10 < 0,
        k == -(d.exp10 as int),
        digits@ == dec_str(d.mant as nat),
        dlen == digits@.len(),
        dlen > k,
    ensures
        r matches Ok(s) ==> literal_ok(Rule::Decimal, s@) && literal_matches(
            Rule::Decimal,
            s@,
            J::F64(*d),
        ),
        r is Ok,
{
    proof {
        lemma_dec_str_digits(d.mant as nat);
        lemma_dec_canon_fixed(*d);
    }
    // the dot goes inside the digits
    let ip = crate::chars::string_from_range(digits.as_str(), 0, dlen - k);
    let fp = crate::chars::string_from_range(digits.as_str(), dlen - k, dlen);
    proof {
        assert(forall|q: int| 0 <= q < ip@.len() ==> #[trigger] ip@[q] == digits@[q]);
        assert(forall|q: int|
            0 <= q < fp@.len() ==> #[trigger] fp@[q] == digits@[q + (dlen - k)]);
    }
    let mut s = String::new();
    if d.neg {
        s.append("-");
    }
    s.append(ip.as_str());
    s.append(".");
    s.append(fp.as_str());
    proof {
        reveal_strlit("-");
        reveal_strlit(".");
        let body = if d.neg {
            s@.subrange(1, s@.len() as int)
        } else {
            s@
        };
        assert(body =~= ip@ + seq!['.'] + fp@);
        assert(crate::dec::dec_body(s@) =~= body);
        lemma_render_dec_shape(s@, body, ip@, fp@, d.neg);
        assert(ip@ + fp@ =~= dec_str(d.mant as nat));
        assert(dec_mant_val(s@) == d.mant as nat);
        lemma_dec_canon_fixed(*d);
        assert(dec_lexeme_canon(s@) == *d);
    }
    Ok(s)
}

/// A negative exponent at least as long as the digit run: leading zeros pad
/// the fraction.
#[verifier::rlimit(100)]
#[verifier::spinoff_prover]
fn render_dec_padded(d: &Dec, digits: &String, dlen: usize, k: usize) -> (r: Result<
    String,
    JError,
>)
    requires
        dec_renderable(*d),
        d.exp10 < 0,
        k == -(d.exp10 as int),
        digits@ == dec_str(d.mant as nat),
        dlen == digits@.len(),
        dlen <= k,
    ensures
        r matches Ok(s) ==> literal_ok(Rule::Decimal, s@) && literal_matches(
            Rule::Decimal,
            s@,
            J::F64(*d),
        ),
        r is Ok,
{
    proof {
        lemma_dec_str_digits(d.mant as nat);
        lemma_dec_canon_fixed(*d);
    }
    let z = zeros(k - dlen);
    let mut s = String::new();
    if d.neg {
        s.append("-");
    }
    s.append("0.");
    s.append(z.as_str());
    s.append(digits.as_str());
    proof {
        reveal_strlit("-");
        reveal_strlit("0.");
        let zz = Seq::new((k - dlen) as nat, |i: int| '0');
        lemma_zeros_digits((k - dlen) as nat);
        let body = if d.neg {
            s@.subrange(1, s@.len() as int)
        } else {
            s@
        };
        assert(body =~= seq!['0', '.'] + zz + dec_str(d.mant as nat));
        assert(body =~= seq!['0'] + seq!['.'] + (zz + dec_str(d.mant as nat)));
        assert(all_digits(zz + dec_str(d.mant as nat))) by {
            assert(forall|q: int|
                0 <= q < zz.len() ==> #[trigger] (zz + dec_str(d.mant as nat))[q]
                    == zz[q]);
            assert(forall|q: int|
                zz.len() <= q < (zz + dec_str(d.mant as nat)).len() ==> #[trigger] (zz
                    + dec_str(d.mant as nat))[q] == dec_str(d.mant as nat)[q - zz.len()]);
        }
        assert(all_digits(seq!['0'])) by {
            assert(seq!['0'][0] == '0');
        }
        assert(crate::dec::dec_body(s@) =~= body);
        lemma_render_dec_shape(s@, body, seq!['0'], zz + dec_str(d.mant as nat), d.neg);
        lemma_digits_val_concat(seq!['0'], zz + dec_str(d.mant as nat));
        lemma_digits_val_concat(zz, dec_str(d.mant as nat));
        assert(digits_val(seq!['0']) == 0) by {
            assert(seq!['0'].drop_last() =~= Seq::<char>::empty());
            assert(digits_val(Seq::<char>::empty()) == 0);
            assert(seq!['0'].last() == '0');
            assert(crate::chars::digit_val('0') == 0);
        }
        assert(digits_val(zz + dec_str(d.mant as nat)) == d.mant as nat) by (
        nonlinear_arith)
            requires
                digits_val(zz + dec_str(d.mant as nat)) == digits_val(zz) * pow10(
                    dec_str(d.mant as nat).len() as nat,
                ) + digits_val(dec_str(d.mant as nat)),
                digits_val(zz) == 0,
                digits_val(dec_str(d.mant as nat)) == d.mant as nat,
        ;
        assert(dec_mant_val(s@) == d.mant as nat) by (nonlinear_arith)
            requires
                dec_mant_val(s@) == 0 * pow10((zz + dec_str(d.mant as nat)).len() as nat)
                    + digits_val(zz + dec_str(d.mant as nat)),
                digits_val(zz + dec_str(d.mant as nat)) == d.mant as nat,
        ;
        lemma_dec_canon_fixed(*d);
        assert(dec_lexeme_canon(s@) == *d);
    }
    Ok(s)
}

/// The rendered decimal splits as expected: an optional sign, the integer
/// digits, the dot, the fraction digits.
proof fn lemma_render_dec_shape(s: Seq<char>, body: Seq<char>, ip: Seq<char>, fp: Seq<char>, neg: bool)
    requires
        body == ip + seq!['.'] + fp,
        all_digits(ip),
        all_digits(fp),
        ip.len() >= 1,
        neg ==> s.len() >= 1 && s[0] == '-' && body == s.subrange(1, s.len() as int),
        !neg ==> body == s,
        crate::dec::dec_body(s) == body,
    ensures
        crate::dec::dec_int_part(s) == ip,
        crate::dec::dec_frac_part(s) == fp,
        crate::dec::dec_sign_neg(s) == neg,
        dec_mant_val(s) == digits_val(ip + fp),
{
    let dot = crate::temporal::find_char_from(body, '.', 0);
    lemma_find_dot(body, ip, fp, 0);
    assert(dot == ip.len());
    assert(crate::dec::dec_int_part(s) =~= ip);
    assert(crate::dec::dec_frac_part(s) =~= fp);
    if !neg {
        if s.len() > 0 && s[0] == '-' {
            assert(crate::chars::is_digit(ip[0]));
            assert(body[0] == ip[0]);
            assert(false);
        }
    }
    assert(crate::dec::dec_int_part(s) + crate::dec::dec_frac_part(s) =~= ip + fp);
}

/// The first dot of digits-dot-digits is right after the integer digits.
proof fn lemma_find_dot(body: Seq<char>, ip: Seq<char>, fp: Seq<char>, k: int)
    requires
        body == ip + seq!['.'] + fp,
        all_digits(ip),
        0 <= k <= ip.len(),
    ensures
        crate::temporal::find_char_from(body, '.', k) == ip.len(),
    decreases ip.len() - k,
{
    if k < ip.len() {
        assert(body[k] == ip[k]);
        assert(crate::chars::is_digit(ip[k]));
        lemma_find_dot(body, ip, fp, k + 1);
    } else {
        assert(body[k] == '.');
    }
}


/// Two zero-padded decimal digits.
fn fmt2(n: u64) -> (r: String)
    requires
        n <= 99,
    ensures
        r@.len() == 2,
        all_digits(r@),
        digits_val(r@) == n,
{
    if n < 10 {
        let mut s = String::new();
        s.append("0");
        let d = fmt_u64(n);
        s.append(d.as_str());
        proof {
            reveal_strlit("0");
            lemma_dec_str_digits(n as nat);
            assert(s@ =~= seq!['0'] + dec_str(n as nat));
            assert(s@.drop_last() =~= seq!['0']);
            assert(seq!['0'].drop_last() =~= Seq::<char>::empty());
            assert(digits_val(Seq::<char>::empty()) == 0);
            assert(seq!['0'].last() == '0');
            assert(crate::chars::digit_val('0') == 0 && crate::chars::is_digit('0'));
            assert(digits_val(seq!['0']) == 0);
            assert(s@.last() == dec_str(n as nat)[0]);
            assert(dec_str(n as nat) =~= seq![crate::chars::digit_char(n as nat)]);
            assert(digits_val(s@) == digits_val(seq!['0']) * 10 + crate::chars::digit_val(
                crate::chars::digit_char(n as nat),
            ));
            assert(forall|q: int| 0 <= q < 2 ==> crate::chars::is_digit(#[trigger] s@[q]));
        }
        s
    } else {
        let s = fmt_u64(n);
        proof {
            lemma_dec_str_digits(n as nat);
            lemma_dec_str_lower(n as nat);
            lemma_digits_val_bound(dec_str(n as nat));
            assert(pow10(1) == 10 && pow10(2) == 100) by {
                reveal_with_fuel(pow10, 3);
            }
            if dec_str(n as nat).len() >= 3 {
                crate::temporal::lemma_pow10_le(2nat, (dec_str(n as nat).len() - 1) as nat);
                assert(false);
            }
            if dec_str(n as nat).len() <= 1 {
                crate::temporal::lemma_pow10_le(dec_str(n as nat).len() as nat, 1nat);
                assert(false);
            }
        }
        s
    }
}

/// Nine zero-padded decimal digits.
fn fmt9(n: u64) -> (r: String)
    requires
        n <= 999_999_999,
    ensures
        r@.len() == 9,
        all_digits(r@),
        digits_val(r@) == n,
{
    let d = fmt_u64(n);
    let dv = to_chars(d.as_str());
    proof {
        lemma_dec_str_digits(n as nat);
        lemma_dec_str_lower(n as nat);
        if dec_str(n as nat).len() >= 10 {
            crate::temporal::lemma_pow10_le(9nat, (dec_str(n as nat).len() - 1) as nat);
            assert(pow10(9) == 1_000_000_000) by {
                reveal_with_fuel(pow10, 10);
            }
            assert(false);
        }
    }
    let z = zeros(9 - dv.len());
    let mut s = z;
    s.append(d.as_str());
    proof {
        let zz = Seq::new((9 - dec_str(n as nat).len()) as nat, |i: int| '0');
        lemma_zeros_digits((9 - dec_str(n as nat).len()) as nat);
        assert(s@ =~= zz + dec_str(n as nat));
        lemma_digits_val_concat(zz, dec_str(n as nat));
        assert(digits_val(s@) == 0 * pow10(dec_str(n as nat).len() as nat) + n);
        assert(all_digits(s@)) by {
            assert(forall|q: int| 0 <= q < zz.len() ==> #[trigger] s@[q] == zz[q]);
            assert(forall|q: int|
                zz.len() <= q < s@.len() ==> #[trigger] s@[q] == dec_str(n as nat)[q - zz.len()]);
        }
    }
    s
}

/// Renders a time-of-day nanosecond count back to its literal form; the
/// fraction is omitted when zero. The text parses back to the same value.
#[verifier::rlimit(100)]
#[verifier::spinoff_prover]
pub fn render_time(v: i64) -> (r: Result<String, JError>)
    ensures
        r matches Ok(s) ==> literal_ok(Rule::Time, s@) && literal_matches(Rule::Time, s@, J::Time(v)),
        renderable(J::Time(v)) ==> r is Ok,
{
    if !(0 <= v && v <= 86_399_999_999_999) {
        return Err(JError::Error("time out of range".to_owned()));
    }
    let t = (v / 1_000_000_000) as u64;
    let frac = (v % 1_000_000_000) as u64;
    let hh = t / 3600;
    let mm = (t % 3600) / 60;
    let ss = t % 60;
    proof {
        assert(hh * 3600 + (mm * 60 + ss) == t) by (nonlinear_arith)
            requires
                hh == t / 3600,
                mm == (t % 3600) / 60,
                ss == t % 60,
                t <= 86_399,
        ;
        assert(t * 1_000_000_000 + frac == v) by (nonlinear_arith)
            requires
                t == v / 1_000_000_000,
                frac == v % 1_000_000_000,
                0 <= v,
        ;
    }
    let a = fmt2(hh);
    let b = fmt2(mm);
    let c = fmt2(ss);
    let mut s = String::new();
    s.append(a.as_str());
    s.append(":");
    s.append(b.as_str());
    s.append(":");
    s.append(c.as_str());
    if frac > 0 {
        s.append(".");
        let f = fmt9(frac);
        s.append(f.as_str());
        proof {
            reveal_strlit(":");
            reveal_strlit(".");
            assert(s@ =~= a@ + seq![':'] + b@ + seq![':'] + c@ + seq!['.'] + f@);
            assert(s@.len() == 18);
            assert(s@.subrange(0, 2) =~= a@);
            assert(s@.subrange(3, 5) =~= b@);
            assert(s@.subrange(6, 8) =~= c@);
            assert(s@.subrange(9, 18) =~= f@);
            assert(s@[2] == ':' && s@[5] == ':' && s@[8] == '.');
            assert(pow10(0) == 1);
            assert(s@.subrange(9, s@.len() as int) =~= f@);
            assert(digits_val(f@) * pow10(0nat) == frac) by (nonlinear_arith)
                requires
                    digits_val(f@) == frac,
                    pow10(0nat) == 1,
            ;
            assert(crate::temporal::time_frac(s@) == frac);
            assert(crate::temporal::time_hh(s@) == hh && crate::temporal::time_mm(s@) == mm
                && crate::temporal::time_ss(s@) == ss);
            assert(crate::temporal::time_value(s@) == v);
        }
        Ok(s)
    } else {
        proof {
            reveal_strlit(":");
            assert(s@ =~= a@ + seq![':'] + b@ + seq![':'] + c@);
            assert(s@.len() == 8);
            assert(s@.subrange(0, 2) =~= a@);
            assert(s@.subrange(3, 5) =~= b@);
            assert(s@.subrange(6, 8) =~= c@);
            assert(s@[2] == ':' && s@[5] == ':');
            assert(crate::temporal::time_value(s@) == v);
        }
        Ok(s)
    }
}


/// Four zero-padded decimal digits.
fn fmt4(n: u64) -> (r: String)
    requires
        n <= 9_999,
    ensures
        r@.len() == 4,
        all_digits(r@),
        digits_val(r@) == n,
{
    let d = fmt_u64(n);
    let dv = to_chars(d.as_str());
    proof {
        lemma_dec_str_digits(n as nat);
        lemma_dec_str_lower(n as nat);
        if dec_str(n as nat).len() >= 5 {
            crate::temporal::lemma_pow10_le(4nat, (dec_str(n as nat).len() - 1) as nat);
            assert(pow10(4) == 10_000) by {
                reveal_with_fuel(pow10, 5);
            }
            assert(false);
        }
    }
    let z = zeros(4 - dv.len());
    let mut s = z;
    s.append(d.as_str());
    proof {
        let zz = Seq::new((4 - dec_str(n as nat).len()) as nat, |i: int| '0');
        lemma_zeros_digits((4 - dec_str(n as nat).len()) as nat);
        assert(s@ =~= zz + dec_str(n as nat));
        lemma_digits_val_concat(zz, dec_str(n as nat));
        assert(digits_val(s@) == 0 * pow10(dec_str(n as nat).len() as nat) + n);
        assert(all_digits(s@)) by {
            assert(forall|q: int| 0 <= q < zz.len() ==> #[trigger] s@[q] == zz[q]);
            assert(forall|q: int|
                zz.len() <= q < s@.len() ==> #[trigger] s@[q] == dec_str(n as nat)[q - zz.len()]);
        }
    }
    s
}

/// Renders a day count since 1970-01-01 back to its `YYYY-MM-DD` literal;
/// every day count within years 0000 to 9999 renders, and the text parses
/// back to the same day count.
#[verifier::rlimit(100)]
#[verifier::spinoff_prover]
pub fn render_date(v: i32) -> (r: Result<String, JError>)
    ensures
        r matches Ok(s) ==> literal_ok(Rule::Date, s@) && literal_matches(Rule::Date, s@, J::Date(v)),
        renderable(J::Date(v)) ==> r is Ok,
{
    // the day count of the end of the supported years
    let mut yy: u64 = 0;
    let mut bound: i64 = -366;
    while yy < 10_000
        invariant
            yy <= 10_000,
            bound == crate::temporal::days_before_year(yy as int),
            -366 <= bound <= 366 * yy,
        decreases 10_000 - yy,
    {
        bound = bound + days_in_year_exec(yy) as i64;
        yy = yy + 1;
    }
    let target: i64 = v as i64 + 719_163;
    if !(-719_528 <= v && target <= bound) {
        return Err(JError::Error("date out of range".to_owned()));
    }
    // find the year whose days hold the target count
    let mut y: u64 = 0;
    let mut acc: i64 = -366;
    proof {
        assert(crate::temporal::days_before_year(0) == -366);
    }
    while y < 9_999 && acc + (days_in_year_exec(y) as i64) < target
        invariant
            y <= 9_999,
            acc == crate::temporal::days_before_year(y as int),
            -366 <= acc <= 366 * y,
            acc < target,
            -719_528 <= v,
            target <= crate::temporal::days_before_year(10_000),
            target == v + 719_163,
        decreases 9_999 - y,
    {
        acc = acc + days_in_year_exec(y) as i64;
        y = y + 1;
    }
    if acc + (days_in_year_exec(y) as i64) < target {
        proof {
            // the target lies within the supported years
            assert(y == 9_999);
            assert(acc + crate::temporal::days_in_year(9_999) == crate::temporal::days_before_year(
                10_000,
            ));
            assert(false);
        }
        return Err(JError::Error("date out of range".to_owned()));
    }
    // find the month
    let mut m: u64 = 1;
    let mut acc2: i64 = 0;
    while m < 12 && acc + acc2 + (days_in_month_of(y, m) as i64) < target
        invariant
            1 <= m <= 12,
            acc2 == crate::temporal::days_before_month(y as int, m as int),
            0 <= acc2 <= 366,
            acc + acc2 < target,
            acc == crate::temporal::days_before_year(y as int),
            acc + crate::temporal::days_in_year(y as int) >= target,
            -719_528 <= v,
            target == v + 719_163,
            y <= 9_999,
        decreases 12 - m,
    {
        acc2 = acc2 + days_in_month_of(y, m) as i64;
        m = m + 1;
    }
    proof {
        if acc + acc2 + crate::temporal::days_in_month(y as int, m as int) < target {
            assert(m == 12);
            crate::temporal::lemma_dbm_13(y as int);
            assert(crate::temporal::days_before_month(y as int, 13) == acc2
                + crate::temporal::days_in_month(y as int, 12));
            assert(false);
        }
    }
    let d: i64 = target - acc - acc2;
    proof {
        assert(1 <= d <= crate::temporal::days_in_month(y as int, m as int));
    }
    let a = fmt4(y);
    let b = fmt2(m);
    let c = fmt2(d as u64);
    let mut s = String::new();
    s.append(a.as_str());
    s.append("-");
    s.append(b.as_str());
    s.append("-");
    s.append(c.as_str());
    proof {
        reveal_strlit("-");
        assert(s@ =~= a@ + seq!['-'] + b@ + seq!['-'] + c@);
        assert(s@.len() == 10);
        assert(s@.subrange(0, 4) =~= a@);
        assert(s@.subrange(5, 7) =~= b@);
        assert(s@.subrange(8, 10) =~= c@);
        assert(s@[4] == '-' && s@[7] == '-');
        assert(crate::temporal::date_y(s@) == y as int);
        assert(crate::temporal::date_m(s@) == m as int);
        assert(crate::temporal::date_d(s@) == d as int);
        assert(crate::temporal::date_value(s@) == v);
    }
    Ok(s)
}

fn days_in_year_exec(y: u64) -> (r: u64)
    ensures
        r == crate::temporal::days_in_year(y as int),
{
    if (y % 4 == 0 && y % 100 != 0) || y % 400 == 0 {
        366
    } else {
        365
    }
}

fn days_in_month_of(y: u64, m: u64) -> (r: u64)
    ensures
        r == crate::temporal::days_in_month(y as int, m as int),
{
    if m == 2 {
        if (y % 4 == 0 && y % 100 != 0) || y % 400 == 0 {
            29
        } else {
            28
        }
    } else if m == 4 || m == 6 || m == 9 || m == 11 {
        30
    } else {
        31
    }
}

} // verus!
