//! Exact decimal scalars. A decimal literal is held as a canonical
//! sign/mantissa/exponent triple with the value `mant * 10^exp10`, negated
//! when `neg` holds. Literals of up to 38 significant digits are represented
//! exactly; a literal needing a longer mantissa is refused rather than
//! rounded.

use vstd::prelude::*;

use crate::chars::{all_digits, all_digits_range, digits_val, int_sign, pow10};
use crate::temporal::{find_char_from, lemma_pow10_le, lemma_pow10_pos};

verus! {

broadcast use vstd::std_specs::vec::group_vec_axioms, vstd::seq::group_seq_axioms;

/// Largest representable mantissa: 38 nines.
pub const DEC_MANT_MAX: u128 = 99_999_999_999_999_999_999_999_999_999_999_999_999;

/// An exact decimal scalar in canonical form.
#[derive(Clone, Copy, PartialEq, Eq, Structural, Debug)]
pub struct Dec {
    pub neg: bool,
    pub mant: u128,
    pub exp10: i32,
}

/// Canonical form: zero is unsigned with exponent zero, and a nonzero
/// mantissa carries no trailing zero.
pub open spec fn dec_wf(d: Dec) -> bool {
    &&& (d.mant == 0 ==> !d.neg && d.exp10 == 0)
    &&& (d.mant > 0 ==> d.mant % 10 != 0)
}

/// The canonical decimal denoting `(-1)^neg * m * 10^e`.
pub open spec fn dec_canon(neg: bool, m: nat, e: int) -> Dec
    decreases m,
{
    if m == 0 {
        Dec { neg: false, mant: 0, exp10: 0 }
    } else if m % 10 == 0 {
        dec_canon(neg, m / 10, e + 1)
    } else {
        Dec { neg, mant: m as u128, exp10: e as i32 }
    }
}

pub open spec fn dec_sign_neg(s: Seq<char>) -> bool {
    s.len() > 0 && s[0] == '-'
}

pub open spec fn dec_body(s: Seq<char>) -> Seq<char> {
    if int_sign(s) {
        s.subrange(1, s.len() as int)
    } else {
        s
    }
}

pub open spec fn dec_dot(s: Seq<char>) -> int {
    find_char_from(dec_body(s), '.', 0)
}

pub open spec fn dec_int_part(s: Seq<char>) -> Seq<char> {
    dec_body(s).subrange(0, dec_dot(s))
}

pub open spec fn dec_frac_part(s: Seq<char>) -> Seq<char> {
    if dec_dot(s) < dec_body(s).len() {
        dec_body(s).subrange(dec_dot(s) + 1, dec_body(s).len() as int)
    } else {
        Seq::empty()
    }
}

/// An optional sign, digits, an optional dot, digits; at least one digit in
/// all, and a fraction no longer than 9999 digits.
pub open spec fn is_dec_lexeme(s: Seq<char>) -> bool {
    &&& dec_int_part(s).len() + dec_frac_part(s).len() >= 1
    &&& all_digits(dec_int_part(s))
    &&& all_digits(dec_frac_part(s))
    &&& dec_frac_part(s).len() <= 9_999
}

/// All digits of the lexeme, read as one integer.
pub open spec fn dec_mant_val(s: Seq<char>) -> nat {
    digits_val(dec_int_part(s) + dec_frac_part(s))
}

/// The canonical decimal a lexeme denotes.
pub open spec fn dec_lexeme_canon(s: Seq<char>) -> Dec {
    dec_canon(dec_sign_neg(s), dec_mant_val(s), -dec_frac_part(s).len())
}

/// Concatenating digit strings scales the left value by the length of the
/// right.
pub proof fn lemma_digits_val_concat(a: Seq<char>, b: Seq<char>)
    ensures
        digits_val(a + b) == digits_val(a) * pow10(b.len() as nat) + digits_val(b),
    decreases b.len(),
{
    if b.len() == 0 {
        assert(a + b =~= a);
        assert(pow10(b.len() as nat) == 1);
        assert(digits_val(b) == 0);
        assert(digits_val(a) * 1 == digits_val(a));
    } else {
        lemma_digits_val_concat(a, b.drop_last());
        let ab = a + b;
        assert(ab.drop_last() =~= a + b.drop_last());
        assert(ab.last() == b.last());
        assert(digits_val(ab) == digits_val(a + b.drop_last()) * 10 + crate::chars::digit_val(
            b.last(),
        ));
        assert(pow10(b.len() as nat) == 10 * pow10((b.len() - 1) as nat));
        assert((digits_val(a) * pow10((b.len() - 1) as nat) + digits_val(b.drop_last())) * 10
            == digits_val(a) * (10 * pow10((b.len() - 1) as nat)) + digits_val(b.drop_last()) * 10)
            by (nonlinear_arith);
        assert(digits_val(a) * pow10(b.len() as nat) == digits_val(a) * (10 * pow10(
            (b.len() - 1) as nat,
        )));
        assert(digits_val(b) == digits_val(b.drop_last()) * 10 + crate::chars::digit_val(
            b.last(),
        ));
    }
}

pub proof fn lemma_dec_canon_wf(neg: bool, m: nat, e: int)
    requires
        m <= DEC_MANT_MAX,
    ensures
        dec_wf(dec_canon(neg, m, e)),
    decreases m,
{
    if m == 0 {
    } else if m % 10 == 0 {
        lemma_dec_canon_wf(neg, m / 10, e + 1);
    }
}

/// Canonicalization ignores trailing zeros of the mantissa.
pub proof fn lemma_dec_canon_scale(neg: bool, m: nat, e: int, k: nat)
    ensures
        dec_canon(neg, m * pow10(k), e - k) == dec_canon(neg, m, e),
    decreases k,
{
    if k == 0 {
        assert(pow10(0) == 1);
        assert(m * 1 == m);
    } else {
        assert(pow10(k) == 10 * pow10((k - 1) as nat));
        let m1 = m * pow10((k - 1) as nat);
        assert(m * pow10(k) == m1 * 10) by (nonlinear_arith)
            requires
                pow10(k) == 10 * pow10((k - 1) as nat),
                m1 == m * pow10((k - 1) as nat),
        ;
        if m == 0 {
            assert(m * pow10(k) == 0) by (nonlinear_arith)
                requires
                    m == 0,
            ;
            lemma_dec_canon_scale(neg, m, e, (k - 1) as nat);
        } else {
            lemma_pow10_pos((k - 1) as nat);
            assert(m1 >= 1) by (nonlinear_arith)
                requires
                    m >= 1,
                    pow10((k - 1) as nat) >= 1,
                    m1 == m * pow10((k - 1) as nat),
            ;
            assert((m1 * 10) % 10 == 0 && (m1 * 10) / 10 == m1) by (nonlinear_arith);
            assert(m1 * 10 != 0);
            assert(dec_canon(neg, m * pow10(k), e - k) == dec_canon(neg, m1, e - k + 1));
            lemma_dec_canon_scale(neg, m, e, (k - 1) as nat);
        }
    }
}

/// Canonicalization is the identity on well-formed decimals.
pub proof fn lemma_dec_canon_fixed(d: Dec)
    requires
        dec_wf(d),
    ensures
        dec_canon(d.neg, d.mant as nat, d.exp10 as int) == d,
{
}

/// Parses the digits of `v[from..to]` into a mantissa, refusing a value
/// above `DEC_MANT_MAX`; the ghost sequence `whole` is the digit string the
/// accumulator tracks, of which the range is the part from `off`.
fn accumulate_digits(
    v: &Vec<char>,
    from: usize,
    to: usize,
    acc0: u128,
    Ghost(whole): Ghost<Seq<char>>,
    Ghost(off): Ghost<int>,
) -> (r: Option<u128>)
    requires
        from <= to <= v@.len(),
        all_digits(whole),
        0 <= off <= whole.len(),
        whole.len() - off == to - from,
        forall|j: int| off <= j < whole.len() ==> whole[j] == v@[from + (j - off)],
        acc0 as nat == digits_val(whole.take(off)),
        acc0 <= DEC_MANT_MAX,
    ensures
        match r {
            Some(x) => x as nat == digits_val(whole) && x <= DEC_MANT_MAX,
            None => digits_val(whole) > DEC_MANT_MAX,
        },
{
    let mut acc = acc0;
    let mut i = from;
    while i < to
        invariant
            from <= i <= to <= v@.len(),
            all_digits(whole),
            0 <= off <= whole.len(),
            whole.len() - off == to - from,
            forall|j: int| off <= j < whole.len() ==> whole[j] == v@[from + (j - off)],
            acc as nat == digits_val(whole.take(off + (i - from))),
            acc <= DEC_MANT_MAX,
        decreases to - i,
    {
        let ghost pos = off + (i - from);
        proof {
            crate::chars::lemma_digits_val_take_succ(whole, pos);
            assert(whole[pos] == v@[i as int]);
            assert(is_digit(whole[pos]));
        }
        let d = (v[i] as u32 - 48) as u128;
        if acc > DEC_MANT_MAX / 10 || (acc == DEC_MANT_MAX / 10 && d > DEC_MANT_MAX % 10) {
            proof {
                assert(acc as nat * 10 + d as nat > DEC_MANT_MAX);
                crate::chars::lemma_digits_val_take_monotone(whole, pos + 1);
            }
            return None;
        }
        acc = acc * 10 + d;
        i = i + 1;
    }
    proof {
        assert(whole.take(off + (to - from)) =~= whole);
    }
    Some(acc)
}

spec fn is_digit(c: char) -> bool {
    crate::chars::is_digit(c)
}

/// Strips trailing zeros of the mantissa, raising the exponent in step.
pub fn dec_canonize(neg: bool, mant0: u128, exp0: i32) -> (r: Dec)
    requires
        mant0 <= DEC_MANT_MAX,
        -20_000 <= exp0 <= 20_000,
    ensures
        r == dec_canon(neg, mant0 as nat, exp0 as int),
        dec_wf(r),
{
    proof {
        lemma_dec_canon_wf(neg, mant0 as nat, exp0 as int);
    }
    if mant0 == 0 {
        return Dec { neg: false, mant: 0, exp10: 0 };
    }
    let mut m = mant0;
    let mut e = exp0;
    proof {
        assert((e - exp0) as nat == 0nat);
        assert(pow10(0) == 1);
    }
    while m % 10 == 0
        invariant
            1 <= m <= DEC_MANT_MAX,
            mant0 <= DEC_MANT_MAX,
            -20_000 <= exp0 <= 20_000,
            exp0 <= e,
            mant0 as nat == m as nat * pow10((e - exp0) as nat),
            dec_canon(neg, mant0 as nat, exp0 as int) == dec_canon(neg, m as nat, e as int),
            e <= exp0 + 39,
        decreases m,
    {
        proof {
            assert(m / 10 >= 1 && m / 10 < m);
            assert(pow10(((e + 1) - exp0) as nat) == 10 * pow10((e - exp0) as nat));
            assert((m / 10) as nat * (10 * pow10((e - exp0) as nat)) == m as nat * pow10(
                (e - exp0) as nat,
            )) by (nonlinear_arith)
                requires
                    m % 10 == 0,
                    m >= 1,
                    (m / 10) * 10 == m,
            ;
            if e - exp0 >= 39 {
                lemma_pow10_le(39nat, (e - exp0) as nat);
                assert(pow10(39) == 10 * pow10(38));
                assert(pow10(38) > DEC_MANT_MAX / 10) by {
                    reveal_with_fuel(pow10, 39);
                }
                assert(m as nat * pow10((e - exp0) as nat) >= pow10((e - exp0) as nat))
                    by (nonlinear_arith)
                    requires
                        m >= 1,
                ;
                assert(false);
            }
        }
        m = m / 10;
        e = e + 1;
    }
    Dec { neg, mant: m, exp10: e }
}

/// Parses `v[from..to]` as a decimal lexeme into its canonical decimal.
/// `None` when the text is not a decimal lexeme or needs more than 38
/// significant digits.
pub fn parse_dec_range(v: &Vec<char>, from: usize, to: usize) -> (r: Option<Dec>)
    requires
        from <= to <= v@.len(),
    ensures
        ({
            let s = v@.subrange(from as int, to as int);
            match r {
                Some(d) => is_dec_lexeme(s) && dec_mant_val(s) <= DEC_MANT_MAX && d
                    == dec_lexeme_canon(s) && dec_wf(d),
                None => !(is_dec_lexeme(s) && dec_mant_val(s) <= DEC_MANT_MAX),
            }
        }),
{
    let ghost s = v@.subrange(from as int, to as int);
    let signed = from < to && (v[from] == '-' || v[from] == '+');
    let neg = from < to && v[from] == '-';
    let start = if signed {
        from + 1
    } else {
        from
    };
    proof {
        assert(dec_body(s) =~= v@.subrange(start as int, to as int));
    }
    let mut dot: usize = start;
    while dot < to && v[dot] != '.'
        invariant
            start <= dot <= to <= v@.len(),
            v@.subrange(start as int, to as int) == dec_body(s),
            find_char_from(dec_body(s), '.', 0) == find_char_from(
                dec_body(s),
                '.',
                dot - start,
            ),
        decreases to - dot,
    {
        proof {
            assert(dec_body(s)[dot - start] == v@[dot as int]);
        }
        dot = dot + 1;
    }
    proof {
        if dot < to {
            assert(dec_body(s)[dot - start] == v@[dot as int]);
            assert(find_char_from(dec_body(s), '.', dot - start) == dot - start);
        } else {
            assert(find_char_from(dec_body(s), '.', dot - start) == dec_body(s).len());
        }
        assert(dec_int_part(s) =~= v@.subrange(start as int, dot as int));
        if dot < to {
            assert(dec_frac_part(s) =~= v@.subrange(dot + 1, to as int));
        }
    }
    let fstart = if dot < to {
        dot + 1
    } else {
        to
    };
    proof {
        if dot >= to {
            assert(dec_frac_part(s) =~= v@.subrange(fstart as int, to as int));
        }
    }
    if dot == start && fstart == to {
        // no digits at all
        return None;
    }
    if !all_digits_range(v, start, dot) {
        return None;
    }
    if !all_digits_range(v, fstart, to) {
        return None;
    }
    if to - fstart > 9_999 {
        return None;
    }
    let ghost ip = dec_int_part(s);
    let ghost fp = dec_frac_part(s);
    let ghost whole = ip + fp;
    proof {
        assert(all_digits(whole)) by {
            assert(forall|j: int| 0 <= j < ip.len() ==> whole[j] == #[trigger] ip[j]);
            assert(forall|j: int|
                ip.len() <= j < whole.len() ==> #[trigger] whole[j] == fp[j - ip.len()]);
        }
        assert(whole.take(0) =~= Seq::<char>::empty());
    }
    let first = match accumulate_digits(v, start, dot, 0, Ghost(whole.take(dot - start)), Ghost(0)) {
        Some(x) => x,
        None => {
            proof {
                assert(whole.take(dot - start) =~= ip);
                crate::chars::lemma_digits_val_take_monotone(whole, dot - start);
                assert(digits_val(whole) > DEC_MANT_MAX);
            }
            return None;
        },
    };
    proof {
        assert(whole.take(dot - start) =~= ip);
        assert(forall|j: int|
            ip.len() <= j < whole.len() ==> #[trigger] whole[j] == fp[j - ip.len()]);
        assert(forall|j: int|
            ip.len() <= j < whole.len() ==> #[trigger] whole[j] == v@.subrange(
                fstart as int,
                to as int,
            )[j - ip.len()]);
    }
    let mant = match accumulate_digits(v, fstart, to, first, Ghost(whole), Ghost(ip.len() as int)) {
        Some(x) => x,
        None => {
            return None;
        },
    };
    let flen = to - fstart;
    let d = dec_canonize(neg, mant, -(flen as i32));
    proof {
        assert(dec_sign_neg(s) == neg);
        assert(dec_mant_val(s) == mant as nat);
    }
    Some(d)
}

} // verus!
